//! In-process fallback store: session id → flattened display lines.
//!
//! Functionally identical to the durable backend from the caller's side, but
//! process-lifetime only; data is lost on restart, a documented property.
//! Callers that share it across tasks guard it with one coarse lock, which is
//! their concern, not this type's: every operation here is memory-only.

use vstd::prelude::*;
use crate::pairing::lines_view;
use crate::turn::{bot_line, spec_bot_line, spec_user_line, user_line};
use vstd::string::StringExecFns;

verus! {

/// True when some entry carries the key `k`.
pub open spec fn has_entry_key(es: Seq<(String, Vec<String>)>, k: Seq<char>) -> bool {
    exists|i: int| 0 <= i < es.len() && es[i].0@ == k
}

/// No two entries carry the same key.
pub open spec fn distinct_entry_keys(es: Seq<(String, Vec<String>)>) -> bool {
    forall|i: int, j: int| 0 <= i < j < es.len() ==> es[i].0@ != es[j].0@
}

/// The mapping an entry list denotes: later entries win, though under
/// `distinct_entry_keys` every key occurs at most once.
pub open spec fn entries_map(es: Seq<(String, Vec<String>)>) -> Map<Seq<char>, Seq<Seq<char>>>
    decreases es.len(),
{
    if es.len() == 0 {
        Map::empty()
    } else {
        entries_map(es.drop_last()).insert(es.last().0@, lines_view(es.last().1@))
    }
}

/// The lines a mapping stores under a key; an unknown key stores none.
pub open spec fn stored_lines(m: Map<Seq<char>, Seq<Seq<char>>>, k: Seq<char>) -> Seq<Seq<char>> {
    if m.dom().contains(k) {
        m[k]
    } else {
        Seq::empty()
    }
}

proof fn lemma_distinct_drop_last(es: Seq<(String, Vec<String>)>)
    requires
        distinct_entry_keys(es),
        es.len() > 0,
    ensures
        distinct_entry_keys(es.drop_last()),
{
    assert forall|i: int, j: int| 0 <= i < j < es.drop_last().len() implies es.drop_last()[i].0@
        != es.drop_last()[j].0@ by {
        assert(es.drop_last()[i] == es[i]);
        assert(es.drop_last()[j] == es[j]);
    }
}

proof fn lemma_entries_map_dom(es: Seq<(String, Vec<String>)>)
    ensures
        forall|k: Seq<char>|
            #[trigger] entries_map(es).dom().contains(k) <==> has_entry_key(es, k),
    decreases es.len(),
{
    if es.len() > 0 {
        lemma_entries_map_dom(es.drop_last());
        assert forall|k: Seq<char>| #[trigger]
            entries_map(es).dom().contains(k) <==> has_entry_key(es, k) by {
            if entries_map(es).dom().contains(k) {
                if k == es.last().0@ {
                    assert(es[es.len() - 1].0@ == k);
                } else {
                    assert(entries_map(es.drop_last()).dom().contains(k));
                    assert(has_entry_key(es.drop_last(), k));
                    let i = choose|i: int|
                        0 <= i < es.drop_last().len() && es.drop_last()[i].0@ == k;
                    assert(es.drop_last()[i] == es[i]);
                    assert(es[i].0@ == k);
                }
            }
            if has_entry_key(es, k) {
                let i = choose|i: int| 0 <= i < es.len() && es[i].0@ == k;
                if i < es.len() - 1 {
                    assert(es.drop_last()[i] == es[i]);
                    assert(es.drop_last()[i].0@ == k);
                    assert(has_entry_key(es.drop_last(), k));
                    assert(entries_map(es.drop_last()).dom().contains(k));
                    assert(entries_map(es).dom().contains(k));
                } else {
                    assert(k == es.last().0@);
                    assert(entries_map(es).dom().contains(k));
                }
            }
        }
    }
}

proof fn lemma_entries_map_get(es: Seq<(String, Vec<String>)>, i: int)
    requires
        distinct_entry_keys(es),
        0 <= i < es.len(),
    ensures
        entries_map(es).dom().contains(es[i].0@),
        entries_map(es)[es[i].0@] == lines_view(es[i].1@),
    decreases es.len(),
{
    if i == es.len() - 1 {
        assert(es.last() == es[i]);
    } else {
        lemma_distinct_drop_last(es);
        assert(es.drop_last()[i] == es[i]);
        lemma_entries_map_get(es.drop_last(), i);
        assert(es.last().0@ != es[i].0@);
    }
}

proof fn lemma_entries_map_push(es: Seq<(String, Vec<String>)>, e: (String, Vec<String>))
    ensures
        entries_map(es.push(e)) == entries_map(es).insert(e.0@, lines_view(e.1@)),
{
    assert(es.push(e).drop_last() =~= es);
    assert(es.push(e).last() == e);
}

proof fn lemma_entries_map_remove(es: Seq<(String, Vec<String>)>, i: int)
    requires
        distinct_entry_keys(es),
        0 <= i < es.len(),
    ensures
        entries_map(es.remove(i)) == entries_map(es).remove(es[i].0@),
    decreases es.len(),
{
    lemma_distinct_drop_last(es);
    if i == es.len() - 1 {
        assert(es.remove(i) =~= es.drop_last());
        lemma_entries_map_dom(es.drop_last());
        assert(!has_entry_key(es.drop_last(), es[i].0@)) by {
            if has_entry_key(es.drop_last(), es[i].0@) {
                let j = choose|j: int|
                    0 <= j < es.drop_last().len() && es.drop_last()[j].0@ == es[i].0@;
                assert(es[j].0@ == es[i].0@);
            }
        }
        assert(entries_map(es).remove(es[i].0@) =~= entries_map(es.drop_last()));
    } else {
        assert(es.remove(i).drop_last() =~= es.drop_last().remove(i));
        assert(es.remove(i).last() == es.last());
        lemma_entries_map_remove(es.drop_last(), i);
        assert(es.drop_last()[i] == es[i]);
        assert(es.last().0@ != es[i].0@);
        assert(entries_map(es.drop_last().remove(i)).insert(
            es.last().0@,
            lines_view(es.last().1@),
        ) =~= entries_map(es).remove(es[i].0@));
    }
}

/// Session id → ordered flattened display lines, with every key held once.
pub struct VolatileStore {
    entries: Vec<(String, Vec<String>)>,
}

impl View for VolatileStore {
    type V = Map<Seq<char>, Seq<Seq<char>>>;

    closed spec fn view(&self) -> Map<Seq<char>, Seq<Seq<char>>> {
        entries_map(self.entries@)
    }
}

impl VolatileStore {
    /// Every key occurs at most once, so the mapping view is faithful.
    pub closed spec fn wf(&self) -> bool {
        distinct_entry_keys(self.entries@)
    }

    /// A fresh store holds no session.
    pub fn new() -> (s: Self)
        ensures
            s.wf(),
            s@ == Map::<Seq<char>, Seq<Seq<char>>>::empty(),
    {
        VolatileStore { entries: Vec::new() }
    }

    fn find_index(&self, key: &String) -> (r: Option<usize>)
        requires
            self.wf(),
        ensures
            match r {
                Some(ix) => ix < self.entries@.len() && self.entries@[ix as int].0@ == key@,
                None => !has_entry_key(self.entries@, key@),
            },
    {
        let mut i: usize = 0;
        while i < self.entries.len()
            invariant
                i <= self.entries@.len(),
                forall|j: int| 0 <= j < i ==> self.entries@[j].0@ != key@,
            decreases self.entries@.len() - i,
        {
            if self.entries[i].0 == *key {
                return Some(i);
            }
            i = i + 1;
        }
        None
    }

    /// Appends one turn to a session: its `"User: …"` line, then its
    /// `"Bot: …"` line, after whatever the session already stored.
    pub fn append_turn(&mut self, session_id: &str, user_message: &str, bot_reply: &str)
        requires
            old(self).wf(),
        ensures
            final(self).wf(),
            final(self)@ == old(self)@.insert(
                session_id@,
                stored_lines(old(self)@, session_id@) + seq![
                    spec_user_line(user_message@),
                    spec_bot_line(bot_reply@),
                ],
            ),
    {
        let key = String::from_str(session_id);
        let ul = user_line(user_message);
        let bl = bot_line(bot_reply);
        let found = self.find_index(&key);
        match found {
            Some(ix) => {
                let ghost es0 = self.entries@;
                proof {
                    lemma_entries_map_get(es0, ix as int);
                    lemma_entries_map_remove(es0, ix as int);
                }
                let mut e = self.entries.remove(ix);
                e.1.push(ul);
                e.1.push(bl);
                proof {
                    assert(lines_view(e.1@) =~= stored_lines(entries_map(es0), session_id@) + seq![
                        spec_user_line(user_message@),
                        spec_bot_line(bot_reply@),
                    ]);
                    lemma_entries_map_push(es0.remove(ix as int), e);
                    assert(distinct_entry_keys(es0.remove(ix as int).push(e))) by {
                        assert(forall|j: int|
                            0 <= j < es0.remove(ix as int).len() ==> #[trigger] es0.remove(
                                ix as int,
                            )[j].0@ != key@);
                    }
                    assert(entries_map(es0).remove(session_id@).insert(
                        session_id@,
                        lines_view(e.1@),
                    ) =~= entries_map(es0).insert(session_id@, lines_view(e.1@)));
                }
                self.entries.push(e);
            },
            None => {
                let ghost es0 = self.entries@;
                let mut lines: Vec<String> = Vec::new();
                lines.push(ul);
                lines.push(bl);
                let e = (key, lines);
                proof {
                    lemma_entries_map_dom(es0);
                    assert(!entries_map(es0).dom().contains(session_id@));
                    assert(lines_view(e.1@) =~= seq![
                        spec_user_line(user_message@),
                        spec_bot_line(bot_reply@),
                    ]);
                    assert(stored_lines(entries_map(es0), session_id@) + lines_view(e.1@)
                        =~= lines_view(e.1@));
                    lemma_entries_map_push(es0, e);
                    assert(distinct_entry_keys(es0.push(e)));
                }
                self.entries.push(e);
            },
        }
    }

    /// The stored line sequence of a session; empty for an unknown session.
    pub fn history(&self, session_id: &str) -> (r: Vec<String>)
        requires
            self.wf(),
        ensures
            lines_view(r@) == stored_lines(self@, session_id@),
    {
        let key = String::from_str(session_id);
        match self.find_index(&key) {
            Some(ix) => {
                proof {
                    lemma_entries_map_get(self.entries@, ix as int);
                }
                let e = &self.entries[ix];
                let mut r: Vec<String> = Vec::new();
                let mut j: usize = 0;
                while j < e.1.len()
                    invariant
                        j <= e.1@.len(),
                        lines_view(r@) == lines_view(e.1@).take(j as int),
                    decreases e.1@.len() - j,
                {
                    let line = e.1[j].clone();
                    proof {
                        assert(line@ == e.1@[j as int]@);
                        assert(lines_view(r@.push(line)) =~= lines_view(r@).push(line@));
                        assert(lines_view(e.1@).take(j as int + 1) =~= lines_view(e.1@).take(
                            j as int,
                        ).push(lines_view(e.1@)[j as int]));
                    }
                    r.push(line);
                    j = j + 1;
                }
                proof {
                    assert(lines_view(e.1@).take(e.1@.len() as int) =~= lines_view(e.1@));
                }
                r
            },
            None => {
                proof {
                    lemma_entries_map_dom(self.entries@);
                }
                Vec::new()
            },
        }
    }

    /// Removes a session and everything it stored; a no-op for an unknown
    /// session.
    pub fn delete(&mut self, session_id: &str)
        requires
            old(self).wf(),
        ensures
            final(self).wf(),
            final(self)@ == old(self)@.remove(session_id@),
    {
        let key = String::from_str(session_id);
        let found = self.find_index(&key);
        match found {
            Some(ix) => {
                let ghost es0 = self.entries@;
                proof {
                    lemma_entries_map_remove(es0, ix as int);
                    assert(distinct_entry_keys(es0.remove(ix as int))) by {
                        lemma_distinct_drop_last(es0);
                        assert forall|i: int, j: int|
                            0 <= i < j < es0.remove(ix as int).len() implies es0.remove(
                            ix as int,
                        )[i].0@ != es0.remove(ix as int)[j].0@ by {
                            let i0 = if i < ix { i } else { i + 1 };
                            let j0 = if j < ix { j } else { j + 1 };
                            assert(es0.remove(ix as int)[i] == es0[i0]);
                            assert(es0.remove(ix as int)[j] == es0[j0]);
                        }
                    }
                }
                self.entries.remove(ix);
            },
            None => {
                proof {
                    lemma_entries_map_dom(self.entries@);
                    assert(entries_map(self.entries@).remove(session_id@) =~= entries_map(
                        self.entries@,
                    ));
                }
            },
        }
    }

    /// The distinct session identifiers that store at least one line, each
    /// exactly once, in unspecified order.
    pub fn list_sessions(&self) -> (r: Vec<String>)
        requires
            self.wf(),
        ensures
            forall|k: Seq<char>| #[trigger] lines_view(r@).contains(k) <==> self@.dom().contains(
                k,
            ),
            forall|i: int, j: int| 0 <= i < j < r@.len() ==> r@[i]@ != r@[j]@,
    {
        let mut r: Vec<String> = Vec::new();
        let mut i: usize = 0;
        while i < self.entries.len()
            invariant
                i <= self.entries@.len(),
                self.wf(),
                r@.len() == i,
                forall|j: int| 0 <= j < i ==> r@[j]@ == self.entries@[j].0@,
            decreases self.entries@.len() - i,
        {
            let name = self.entries[i].0.clone();
            r.push(name);
            i = i + 1;
        }
        proof {
            lemma_entries_map_dom(self.entries@);
            assert forall|k: Seq<char>| #[trigger]
                lines_view(r@).contains(k) <==> self@.dom().contains(k) by {
                if lines_view(r@).contains(k) {
                    let j = choose|j: int| 0 <= j < lines_view(r@).len() && lines_view(r@)[j] == k;
                    assert(self.entries@[j].0@ == k);
                }
                if self@.dom().contains(k) {
                    let j = choose|j: int| 0 <= j < self.entries@.len() && self.entries@[j].0@ == k;
                    assert(lines_view(r@)[j] == k);
                }
            }
        }
        r
    }
}

} // verus!
