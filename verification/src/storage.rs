//! The conversation store facade: one uniform API over exactly one of the
//! two backends, chosen at construction and fixed for the object's lifetime.
//!
//! Whichever backend is active, the externally visible semantics coincide:
//! `save_conversation` appends exactly one `(user, bot)` pair to the
//! session's pair view and two lines to its line view, `delete_session`
//! erases the session, and other sessions are never touched.

use vstd::prelude::*;
use crate::durable::{not_in_session, session_rows, table_has_session, TurnTable};
use crate::pairing::{
    lemma_strip_bot_line, lemma_strip_user_line, lines_view, pairs_from_lines, pairs_view,
    rows_to_lines, rows_to_pairs, spec_flatten_turns, spec_pairs_of_lines, spec_turn_pairs,
};
use crate::turn::{spec_bot_line, spec_user_line, ChatMessage, Turn};
use crate::volatile::{stored_lines, VolatileStore};
use vstd::string::StringExecFns;

verus! {

/// Milliseconds since the Unix epoch, read from the system clock; negative
/// for a clock standing before the epoch, saturated at the extremes.
///
/// Relies on `std::time::SystemTime::now`: the wall clock can move
/// arbitrarily, so nothing is promised of the value; every caller must hold
/// for every outcome. The body is total: no clock state can panic.
#[verifier::external_body]
fn now_millis() -> i64 {
    match std::time::SystemTime::now().duration_since(std::time::UNIX_EPOCH) {
        Ok(since) => i64::try_from(since.as_millis()).unwrap_or(i64::MAX),
        Err(before) => i64::try_from(before.duration().as_millis()).map_or(i64::MIN, |m| -m),
    }
}

enum Backend {
    Durable(TurnTable),
    Volatile(VolatileStore),
}

proof fn lemma_session_rows_push(rows: Seq<Turn>, t: Turn, k: Seq<char>)
    ensures
        t.session_id == k ==> session_rows(rows.push(t), k) == session_rows(rows, k).push(t),
        t.session_id != k ==> session_rows(rows.push(t), k) == session_rows(rows, k),
{
    reveal(Seq::filter);
    assert(rows.push(t).drop_last() =~= rows);
    assert(rows.push(t).last() == t);
}

proof fn lemma_flatten_push(rows: Seq<Turn>, t: Turn)
    ensures
        spec_flatten_turns(rows.push(t)) == spec_flatten_turns(rows) + seq![
            spec_user_line(t.user_message),
            spec_bot_line(t.bot_reply),
        ],
    decreases rows.len(),
{
    let add = seq![spec_user_line(t.user_message), spec_bot_line(t.bot_reply)];
    if rows.len() == 0 {
        assert(rows.push(t)[0] == t);
        assert(rows.push(t).skip(1) =~= Seq::<Turn>::empty());
        assert(spec_flatten_turns(Seq::<Turn>::empty()) == Seq::<Seq<char>>::empty());
        assert(spec_flatten_turns(rows) == Seq::<Seq<char>>::empty());
        assert(spec_flatten_turns(rows.push(t)) =~= spec_flatten_turns(rows) + add);
    } else {
        assert(rows.push(t)[0] == rows[0]);
        assert(rows.push(t).skip(1) =~= rows.skip(1).push(t));
        lemma_flatten_push(rows.skip(1), t);
        assert(spec_flatten_turns(rows.push(t)) =~= spec_flatten_turns(rows) + add);
    }
}

proof fn lemma_turn_pairs_push(rows: Seq<Turn>, t: Turn)
    ensures
        spec_turn_pairs(rows.push(t)) == spec_turn_pairs(rows).push(
            (t.user_message, t.bot_reply),
        ),
{
    assert(spec_turn_pairs(rows.push(t)) =~= spec_turn_pairs(rows).push(
        (t.user_message, t.bot_reply),
    ));
}

proof fn lemma_has_session_push(rows: Seq<Turn>, t: Turn)
    ensures
        forall|k: Seq<char>|
            #[trigger] table_has_session(rows.push(t), k) <==> (table_has_session(rows, k) || k
                == t.session_id),
{
    assert forall|k: Seq<char>|
        #[trigger] table_has_session(rows.push(t), k) <==> (table_has_session(rows, k) || k
            == t.session_id) by {
        if table_has_session(rows.push(t), k) {
            let i = choose|i: int|
                0 <= i < rows.push(t).len() && #[trigger] rows.push(t)[i].session_id == k;
            if i < rows.len() {
                assert(rows[i].session_id == k);
            }
        }
        if table_has_session(rows, k) {
            let i = choose|i: int| 0 <= i < rows.len() && #[trigger] rows[i].session_id == k;
            assert(rows.push(t)[i].session_id == k);
        }
        if k == t.session_id {
            assert(rows.push(t)[rows.len() as int].session_id == k);
        }
    }
}

proof fn lemma_session_rows_after_delete(rows: Seq<Turn>, k: Seq<char>)
    ensures
        session_rows(rows.filter(not_in_session(k)), k) == Seq::<Turn>::empty(),
        forall|k2: Seq<char>| k2 != k ==> #[trigger] session_rows(
            rows.filter(not_in_session(k)),
            k2,
        ) == session_rows(rows, k2),
    decreases rows.len(),
{
    reveal(Seq::filter);
    if rows.len() == 0 {
        assert(rows.filter(not_in_session(k)) =~= rows);
    } else {
        let rest = rows.drop_last();
        let t = rows.last();
        lemma_session_rows_after_delete(rest, k);
        let kept = rest.filter(not_in_session(k));
        if t.session_id == k {
            assert(rows.filter(not_in_session(k)) == kept);
            assert forall|k2: Seq<char>| k2 != k implies #[trigger] session_rows(
                rows.filter(not_in_session(k)),
                k2,
            ) == session_rows(rows, k2) by {
                assert(session_rows(rows, k2) == session_rows(rest, k2));
            }
        } else {
            assert(rows.filter(not_in_session(k)) == kept.push(t));
            lemma_session_rows_push(kept, t, k);
            assert forall|k2: Seq<char>| k2 != k implies #[trigger] session_rows(
                rows.filter(not_in_session(k)),
                k2,
            ) == session_rows(rows, k2) by {
                lemma_session_rows_push(kept, t, k2);
                lemma_session_rows_push(rest, t, k2);
            }
        }
    }
}

proof fn lemma_has_session_iff_rows(rows: Seq<Turn>, k: Seq<char>)
    ensures
        table_has_session(rows, k) <==> session_rows(rows, k).len() > 0,
    decreases rows.len(),
{
    reveal(Seq::filter);
    if rows.len() == 0 {
    } else {
        let rest = rows.drop_last();
        let t = rows.last();
        lemma_has_session_iff_rows(rest, k);
        if table_has_session(rows, k) {
            let i = choose|i: int| 0 <= i < rows.len() && #[trigger] rows[i].session_id == k;
            if i < rest.len() {
                assert(rest[i].session_id == k);
            }
        }
        if table_has_session(rest, k) {
            let i = choose|i: int| 0 <= i < rest.len() && #[trigger] rest[i].session_id == k;
            assert(rows[i].session_id == k);
        }
        if t.session_id == k {
            assert(rows[rows.len() - 1].session_id == k);
        }
    }
}

proof fn lemma_pairs_append_turn(lines: Seq<Seq<char>>, u: Seq<char>, b: Seq<char>)
    requires
        lines.len() % 2 == 0,
    ensures
        spec_pairs_of_lines(lines + seq![spec_user_line(u), spec_bot_line(b)])
            == spec_pairs_of_lines(lines).push((u, b)),
    decreases lines.len(),
{
    let add = seq![spec_user_line(u), spec_bot_line(b)];
    let all = lines + add;
    if lines.len() == 0 {
        assert(all =~= add);
        lemma_strip_user_line(u);
        lemma_strip_bot_line(b);
        assert(all[0] == spec_user_line(u));
        assert(all[1] == spec_bot_line(b));
        assert(all.skip(2) =~= Seq::<Seq<char>>::empty());
        assert(spec_pairs_of_lines(Seq::<Seq<char>>::empty()) == Seq::<(
            Seq<char>,
            Seq<char>,
        )>::empty());
        assert(spec_pairs_of_lines(lines) == Seq::<(Seq<char>, Seq<char>)>::empty());
        assert(spec_pairs_of_lines(all) =~= spec_pairs_of_lines(lines).push((u, b)));
    } else {
        assert(all[0] == lines[0]);
        assert(all[1] == lines[1]);
        assert(all.skip(2) =~= lines.skip(2) + add);
        lemma_pairs_append_turn(lines.skip(2), u, b);
        assert(spec_pairs_of_lines(all) =~= spec_pairs_of_lines(lines).push((u, b)));
    }
}

/// Recording is append-only: relative to any earlier observation of a
/// session's pair view, the view after one more recorded turn keeps every
/// prior pair unchanged at its index and adds exactly one pair at the end —
/// with `save_conversation`'s contract, nothing a prior call returned is
/// ever altered or removed except by `delete_session`.
pub proof fn lemma_record_append_only(
    before: Seq<(Seq<char>, Seq<char>)>,
    u: Seq<char>,
    b: Seq<char>,
)
    ensures
        before.push((u, b)).take(before.len() as int) == before,
        forall|i: int| 0 <= i < before.len() ==> before.push((u, b))[i] == before[i],
        before.push((u, b)).len() == before.len() + 1,
        before.push((u, b)).last() == (u, b),
{
    assert(before.push((u, b)).take(before.len() as int) =~= before);
}

/// Stores conversation turns in exactly one of two modes, fixed at
/// construction: a durable turn table, or the volatile in-process line
/// store.
pub struct ChatStorage {
    backend: Backend,
}

impl ChatStorage {
    /// Every stored volatile line sequence has even length: lines are only
    /// ever appended two at a time, one turn at a time.
    pub closed spec fn wf(&self) -> bool {
        match self.backend {
            Backend::Durable(_) => true,
            Backend::Volatile(v) => v.wf() && forall|k: Seq<char>|
                v@.dom().contains(k) ==> #[trigger] v@[k].len() % 2 == 0,
        }
    }

    /// Whether the durable backend is the active one.
    pub closed spec fn is_durable(&self) -> bool {
        self.backend is Durable
    }

    /// The ordered `(user, bot)` pair view of a session.
    pub closed spec fn pairs_of(&self, sid: Seq<char>) -> Seq<(Seq<char>, Seq<char>)> {
        match self.backend {
            Backend::Durable(t) => spec_turn_pairs(session_rows(t@, sid)),
            Backend::Volatile(v) => spec_pairs_of_lines(stored_lines(v@, sid)),
        }
    }

    /// The flattened display-line view of a session.
    pub closed spec fn lines_of(&self, sid: Seq<char>) -> Seq<Seq<char>> {
        match self.backend {
            Backend::Durable(t) => spec_flatten_turns(session_rows(t@, sid)),
            Backend::Volatile(v) => stored_lines(v@, sid),
        }
    }

    /// The set of sessions with at least one stored turn.
    pub closed spec fn sessions(&self) -> Set<Seq<char>> {
        match self.backend {
            Backend::Durable(t) => Set::new(|k: Seq<char>| table_has_session(t@, k)),
            Backend::Volatile(v) => v@.dom(),
        }
    }

    /// A memory-only store; always succeeds, holds nothing, survives
    /// nothing.
    pub fn new_memory_only() -> (s: Self)
        ensures
            s.wf(),
            !s.is_durable(),
            s.sessions() == Set::<Seq<char>>::empty(),
            forall|k: Seq<char>| #[trigger] s.pairs_of(k) == Seq::<(Seq<char>, Seq<char>)>::empty(),
            forall|k: Seq<char>| #[trigger] s.lines_of(k) == Seq::<Seq<char>>::empty(),
    {
        let s = ChatStorage { backend: Backend::Volatile(VolatileStore::new()) };
        proof {
            assert(s.sessions() =~= Set::<Seq<char>>::empty());
            assert forall|k: Seq<char>| #[trigger]
                s.pairs_of(k) == Seq::<(Seq<char>, Seq<char>)>::empty() by {
                assert(s.pairs_of(k) =~= Seq::<(Seq<char>, Seq<char>)>::empty());
            }
            assert forall|k: Seq<char>| #[trigger]
                s.lines_of(k) == Seq::<Seq<char>>::empty() by {
                assert(s.lines_of(k) =~= Seq::<Seq<char>>::empty());
            }
        }
        s
    }

    /// A durable-backed store over an empty turn table. Opening or creating
    /// the backing database, and surfacing `StorageInit` when that fails,
    /// is the concern of the caller that performs the I/O; the turns this
    /// store holds are the rows it has been handed.
    pub fn new_durable() -> (s: Self)
        ensures
            s.wf(),
            s.is_durable(),
            s.sessions() == Set::<Seq<char>>::empty(),
            forall|k: Seq<char>| #[trigger] s.pairs_of(k) == Seq::<(Seq<char>, Seq<char>)>::empty(),
            forall|k: Seq<char>| #[trigger] s.lines_of(k) == Seq::<Seq<char>>::empty(),
    {
        let s = ChatStorage { backend: Backend::Durable(TurnTable::new()) };
        proof {
            reveal(Seq::filter);
            assert(s.sessions() =~= Set::<Seq<char>>::empty());
            assert forall|k: Seq<char>| #[trigger]
                s.pairs_of(k) == Seq::<(Seq<char>, Seq<char>)>::empty() by {
                assert(session_rows(Seq::<Turn>::empty(), k) =~= Seq::<Turn>::empty());
                assert(s.pairs_of(k) =~= Seq::<(Seq<char>, Seq<char>)>::empty());
            }
            assert forall|k: Seq<char>| #[trigger]
                s.lines_of(k) == Seq::<Seq<char>>::empty() by {
                assert(session_rows(Seq::<Turn>::empty(), k) =~= Seq::<Turn>::empty());
            }
        }
        s
    }

    /// Records one turn: stamps the current time and appends the exchange
    /// to the active backend. Exactly one pair is appended to the session's
    /// pair view, two lines to its line view; every other session is left
    /// untouched, and nothing already recorded is altered or removed.
    pub fn save_conversation(&mut self, session_id: &str, user_message: &str, bot_reply: &str)
        requires
            old(self).wf(),
        ensures
            final(self).wf(),
            final(self).is_durable() == old(self).is_durable(),
            final(self).pairs_of(session_id@) == old(self).pairs_of(session_id@).push(
                (user_message@, bot_reply@),
            ),
            final(self).lines_of(session_id@) == old(self).lines_of(session_id@) + seq![
                spec_user_line(user_message@),
                spec_bot_line(bot_reply@),
            ],
            forall|k: Seq<char>| k != session_id@ ==> #[trigger] final(self).pairs_of(k) == old(
                self,
            ).pairs_of(k),
            forall|k: Seq<char>| k != session_id@ ==> #[trigger] final(self).lines_of(k) == old(
                self,
            ).lines_of(k),
            final(self).sessions() == old(self).sessions().insert(session_id@),
    {
        match &mut self.backend {
            Backend::Durable(table) => {
                let timestamp = now_millis();
                let turn = ChatMessage {
                    id: None,
                    session_id: String::from_str(session_id),
                    user_message: String::from_str(user_message),
                    bot_reply: String::from_str(bot_reply),
                    timestamp,
                };
                let ghost rows0 = table@;
                let ghost tv = turn@;
                table.append(turn);
                proof {
                    assert(tv.session_id == session_id@);
                    lemma_session_rows_push(rows0, tv, session_id@);
                    lemma_turn_pairs_push(session_rows(rows0, session_id@), tv);
                    lemma_flatten_push(session_rows(rows0, session_id@), tv);
                    lemma_has_session_push(rows0, tv);
                    assert forall|k: Seq<char>| k != session_id@ implies #[trigger] session_rows(
                        rows0.push(tv),
                        k,
                    ) == session_rows(rows0, k) by {
                        lemma_session_rows_push(rows0, tv, k);
                    }
                    assert(Set::new(|k: Seq<char>| table_has_session(rows0.push(tv), k)) =~= Set::new(
                        |k: Seq<char>| table_has_session(rows0, k),
                    ).insert(session_id@));
                }
            },
            Backend::Volatile(store) => {
                let ghost m0 = store@;
                store.append_turn(session_id, user_message, bot_reply);
                proof {
                    let ul = spec_user_line(user_message@);
                    let bl = spec_bot_line(bot_reply@);
                    let old_lines = stored_lines(m0, session_id@);
                    assert(old_lines.len() % 2 == 0);
                    lemma_pairs_append_turn(old_lines, user_message@, bot_reply@);
                    assert(stored_lines(store@, session_id@) == old_lines + seq![ul, bl]);
                    assert forall|k: Seq<char>| k != session_id@ implies #[trigger] stored_lines(
                        store@,
                        k,
                    ) == stored_lines(m0, k) by {
                        if m0.dom().contains(k) {
                            assert(store@[k] == m0[k]);
                        }
                    }
                    assert(store@.dom() =~= m0.dom().insert(session_id@));
                    assert forall|k: Seq<char>| store@.dom().contains(k) implies #[trigger] store@[k].len()
                        % 2 == 0 by {
                        if k == session_id@ {
                            assert(store@[k] == old_lines + seq![ul, bl]);
                        } else {
                            assert(store@[k] == m0[k]);
                        }
                    }
                }
            },
        }
    }

    /// The ordered `(user, bot)` pair view of a session, used to build the
    /// downstream context; empty for an unknown session. In volatile mode
    /// this pairs the stored lines two at a time, dropping a trailing
    /// unpaired line.
    pub fn get_session_pairs(&self, session_id: &str) -> (r: Vec<(String, String)>)
        requires
            self.wf(),
        ensures
            pairs_view(r@) == self.pairs_of(session_id@),
    {
        match &self.backend {
            Backend::Durable(table) => {
                let rows = table.history(session_id);
                rows_to_pairs(&rows)
            },
            Backend::Volatile(store) => {
                let lines = store.history(session_id);
                pairs_from_lines(&lines)
            },
        }
    }

    /// The flattened `"User: …"/"Bot: …"` display view of a session, empty
    /// for an unknown session.
    pub fn get_conversation_history(&self, session_id: &str) -> (r: Vec<String>)
        requires
            self.wf(),
        ensures
            lines_view(r@) == self.lines_of(session_id@),
    {
        match &self.backend {
            Backend::Durable(table) => {
                let rows = table.history(session_id);
                rows_to_lines(&rows)
            },
            Backend::Volatile(store) => store.history(session_id),
        }
    }

    /// Removes a whole session: afterwards it is not listed, and its pair
    /// and line views are empty. Idempotent; other sessions are untouched.
    pub fn delete_session(&mut self, session_id: &str)
        requires
            old(self).wf(),
        ensures
            final(self).wf(),
            final(self).is_durable() == old(self).is_durable(),
            final(self).pairs_of(session_id@) == Seq::<(Seq<char>, Seq<char>)>::empty(),
            final(self).lines_of(session_id@) == Seq::<Seq<char>>::empty(),
            !final(self).sessions().contains(session_id@),
            final(self).sessions() == old(self).sessions().remove(session_id@),
            forall|k: Seq<char>| k != session_id@ ==> #[trigger] final(self).pairs_of(k) == old(
                self,
            ).pairs_of(k),
            forall|k: Seq<char>| k != session_id@ ==> #[trigger] final(self).lines_of(k) == old(
                self,
            ).lines_of(k),
    {
        match &mut self.backend {
            Backend::Durable(table) => {
                let ghost rows0 = table@;
                table.delete(session_id);
                proof {
                    reveal(Seq::filter);
                    lemma_session_rows_after_delete(rows0, session_id@);
                    assert(spec_turn_pairs(Seq::<Turn>::empty()) =~= Seq::<(
                        Seq<char>,
                        Seq<char>,
                    )>::empty());
                    assert(spec_flatten_turns(Seq::<Turn>::empty()) =~= Seq::<Seq<char>>::empty());
                    assert(Set::new(|k: Seq<char>| table_has_session(table@, k)) =~= Set::new(
                        |k: Seq<char>| table_has_session(rows0, k),
                    ).remove(session_id@)) by {
                        assert forall|k: Seq<char>|
                            #[trigger] table_has_session(table@, k) <==> (k != session_id@
                                && table_has_session(rows0, k)) by {
                            lemma_has_session_iff_rows(table@, k);
                            lemma_has_session_iff_rows(rows0, k);
                            if k != session_id@ {
                                assert(session_rows(table@, k) == session_rows(rows0, k));
                            }
                        }
                    }
                }
            },
            Backend::Volatile(store) => {
                let ghost m0 = store@;
                store.delete(session_id);
                proof {
                    assert(stored_lines(store@, session_id@) =~= Seq::<Seq<char>>::empty());
                    assert forall|k: Seq<char>| k != session_id@ implies #[trigger] stored_lines(
                        store@,
                        k,
                    ) == stored_lines(m0, k) by {
                        if m0.dom().contains(k) {
                            assert(store@[k] == m0[k]);
                        }
                    }
                    assert(store@.dom() =~= m0.dom().remove(session_id@));
                    assert forall|k: Seq<char>| store@.dom().contains(k) implies #[trigger] store@[k].len()
                        % 2 == 0 by {
                        assert(store@[k] == m0[k]);
                    }
                }
            },
        }
    }

    /// Every session with at least one stored turn, each exactly once, in
    /// unspecified order.
    pub fn get_all_sessions(&self) -> (r: Vec<String>)
        requires
            self.wf(),
        ensures
            forall|k: Seq<char>| #[trigger] lines_view(r@).contains(k) <==> self.sessions()
                .contains(k),
            forall|i: int, j: int| 0 <= i < j < r@.len() ==> r@[i]@ != r@[j]@,
    {
        match &self.backend {
            Backend::Durable(table) => table.list_sessions(),
            Backend::Volatile(store) => store.list_sessions(),
        }
    }
}

} // verus!
