//! The durable side of the store: the verified model of the single
//! append-only turn table, and the connection-location normalization the
//! backend is opened with.
//!
//! The table model keeps rows in insertion order. Because timestamps are
//! assigned at persistence time and are non-decreasing per session under
//! normal operation, insertion order coincides with the documented retrieval
//! order (timestamp ascending, ties broken by the autoincrement surrogate
//! key). The I/O that carries this model onto a database engine lives
//! outside the verified library and hands rows back as plain values.

use vstd::prelude::*;
use crate::pairing::{lines_view, turns_view};
use crate::strutil::{
    spec_contains_char, spec_contains_sub, spec_is_prefix, str_contains_char, str_contains_sub,
    str_starts_with,
};
use crate::turn::{ChatMessage, Turn};
use vstd::string::StringExecFns;

verus! {

/// True when some row belongs to session `k`.
pub open spec fn table_has_session(rows: Seq<Turn>, k: Seq<char>) -> bool {
    exists|i: int| 0 <= i < rows.len() && rows[i].session_id == k
}

/// Membership of session `k`, as a row predicate.
pub open spec fn in_session(k: Seq<char>) -> spec_fn(Turn) -> bool {
    |t: Turn| t.session_id == k
}

/// The complement row predicate: rows of every other session.
pub open spec fn not_in_session(k: Seq<char>) -> spec_fn(Turn) -> bool {
    |t: Turn| t.session_id != k
}

/// The rows of one session, in stored order.
pub open spec fn session_rows(rows: Seq<Turn>, k: Seq<char>) -> Seq<Turn> {
    rows.filter(in_session(k))
}

/// The single append-only table of turn rows, in insertion order.
pub struct TurnTable {
    rows: Vec<ChatMessage>,
}

impl View for TurnTable {
    type V = Seq<Turn>;

    closed spec fn view(&self) -> Seq<Turn> {
        turns_view(self.rows@)
    }
}

impl TurnTable {
    /// A fresh table holds no row.
    pub fn new() -> (s: Self)
        ensures
            s@ == Seq::<Turn>::empty(),
    {
        let t = TurnTable { rows: Vec::new() };
        proof {
            assert(t@ =~= Seq::<Turn>::empty());
        }
        t
    }

    /// Inserts one turn row after every existing row.
    pub fn append(&mut self, turn: ChatMessage)
        ensures
            final(self)@ == old(self)@.push(turn@),
    {
        proof {
            assert(turns_view(self.rows@.push(turn)) =~= turns_view(self.rows@).push(turn@));
        }
        self.rows.push(turn);
    }

    /// All rows of one session, in stored order; empty (not an error) for an
    /// unknown session.
    pub fn history(&self, session_id: &str) -> (r: Vec<ChatMessage>)
        ensures
            turns_view(r@) == session_rows(self@, session_id@),
    {
        let key = String::from_str(session_id);
        let ghost pred = in_session(session_id@);
        let mut r: Vec<ChatMessage> = Vec::new();
        let mut i: usize = 0;
        proof {
            reveal(Seq::filter);
            assert(self@.take(0) =~= Seq::<Turn>::empty());
            assert(turns_view(r@) =~= self@.take(0).filter(pred));
        }
        while i < self.rows.len()
            invariant
                i <= self.rows@.len(),
                self@ == turns_view(self.rows@),
                turns_view(r@) == self@.take(i as int).filter(pred),
                pred == in_session(session_id@),
                key@ == session_id@,
            decreases self.rows@.len() - i,
        {
            let ghost taken = self@.take(i as int + 1);
            proof {
                assert(taken.drop_last() =~= self@.take(i as int));
                assert(taken.last() == self@[i as int]);
                assert(self@[i as int] == self.rows@[i as int]@);
            }
            if self.rows[i].session_id == key {
                let row = self.rows[i].clone();
                proof {
                    reveal(Seq::filter);
                    assert(taken.last().session_id == session_id@);
                    assert(pred(taken.last()));
                    assert(taken.filter(pred) == taken.drop_last().filter(pred).push(taken.last()));
                    assert(turns_view(r@.push(row)) =~= turns_view(r@).push(row@));
                }
                r.push(row);
            } else {
                proof {
                    reveal(Seq::filter);
                    assert(taken.last().session_id != session_id@);
                    assert(!pred(taken.last()));
                    assert(taken.filter(pred) == taken.drop_last().filter(pred));
                }
            }
            i = i + 1;
        }
        proof {
            assert(self@.take(self.rows@.len() as int) =~= self@);
        }
        r
    }

    /// Removes all rows of one session; a no-op for an unknown session.
    pub fn delete(&mut self, session_id: &str)
        ensures
            final(self)@ == old(self)@.filter(not_in_session(session_id@)),
    {
        let key = String::from_str(session_id);
        let ghost pred = not_in_session(session_id@);
        let ghost all = self@;
        let mut kept: Vec<ChatMessage> = Vec::new();
        let mut i: usize = 0;
        proof {
            reveal(Seq::filter);
            assert(all.take(0) =~= Seq::<Turn>::empty());
            assert(turns_view(kept@) =~= all.take(0).filter(pred));
        }
        while i < self.rows.len()
            invariant
                i <= self.rows@.len(),
                all == turns_view(self.rows@),
                turns_view(kept@) == all.take(i as int).filter(pred),
                pred == not_in_session(session_id@),
                key@ == session_id@,
            decreases self.rows@.len() - i,
        {
            let ghost taken = all.take(i as int + 1);
            proof {
                assert(taken.drop_last() =~= all.take(i as int));
                assert(taken.last() == all[i as int]);
                assert(all[i as int] == self.rows@[i as int]@);
            }
            if self.rows[i].session_id == key {
                proof {
                    reveal(Seq::filter);
                    assert(taken.last().session_id == session_id@);
                    assert(!pred(taken.last()));
                    assert(taken.filter(pred) == taken.drop_last().filter(pred));
                }
            } else {
                let row = self.rows[i].clone();
                proof {
                    reveal(Seq::filter);
                    assert(taken.last().session_id != session_id@);
                    assert(pred(taken.last()));
                    assert(taken.filter(pred) == taken.drop_last().filter(pred).push(taken.last()));
                    assert(turns_view(kept@.push(row)) =~= turns_view(kept@).push(row@));
                }
                kept.push(row);
            }
            i = i + 1;
        }
        proof {
            assert(all.take(self.rows@.len() as int) =~= all);
        }
        self.rows = kept;
    }

    /// The distinct session identifiers with at least one stored row, each
    /// exactly once, in unspecified order.
    pub fn list_sessions(&self) -> (r: Vec<String>)
        ensures
            forall|k: Seq<char>| #[trigger] lines_view(r@).contains(k) <==> table_has_session(
                self@,
                k,
            ),
            forall|i: int, j: int| 0 <= i < j < r@.len() ==> r@[i]@ != r@[j]@,
    {
        let mut r: Vec<String> = Vec::new();
        let mut i: usize = 0;
        while i < self.rows.len()
            invariant
                i <= self.rows@.len(),
                self@ == turns_view(self.rows@),
                forall|k: Seq<char>| #[trigger] lines_view(r@).contains(k) <==> table_has_session(
                    self@.take(i as int),
                    k,
                ),
                forall|a: int, b: int| 0 <= a < b < r@.len() ==> r@[a]@ != r@[b]@,
            decreases self.rows@.len() - i,
        {
            let sid = &self.rows[i].session_id;
            let seen = vec_contains_string(&r, sid);
            proof {
                assert(self@.take(i as int + 1)[i as int] == self.rows@[i as int]@);
                assert forall|k: Seq<char>|
                    #[trigger] table_has_session(self@.take(i as int + 1), k) <==> (
                    table_has_session(self@.take(i as int), k) || k == sid@) by {
                    if table_has_session(self@.take(i as int + 1), k) {
                        let x = choose|x: int|
                            0 <= x < i + 1 && #[trigger] self@.take(i as int + 1)[x].session_id
                                == k;
                        if x < i {
                            assert(self@.take(i as int)[x].session_id == k);
                        }
                    }
                    if table_has_session(self@.take(i as int), k) {
                        let x = choose|x: int|
                            0 <= x < i && self@.take(i as int)[x].session_id == k;
                        assert(self@.take(i as int + 1)[x].session_id == k);
                    }
                    if k == sid@ {
                        assert(self@.take(i as int + 1)[i as int].session_id == k);
                    }
                }
            }
            if !seen {
                let name = sid.clone();
                proof {
                    assert forall|a: int| 0 <= a < r@.len() implies r@[a]@ != sid@ by {
                        if r@[a]@ == sid@ {
                            assert(lines_view(r@)[a] == sid@);
                            assert(lines_view(r@).contains(sid@));
                        }
                    }
                    assert forall|k: Seq<char>| #[trigger]
                        lines_view(r@.push(name)).contains(k) <==> (lines_view(r@).contains(k) || k
                        == sid@) by {
                        let lv = lines_view(r@.push(name));
                        if lv.contains(k) {
                            let x = choose|x: int| 0 <= x < lv.len() && lv[x] == k;
                            if x < r@.len() {
                                assert(lines_view(r@)[x] == k);
                            }
                        }
                        if lines_view(r@).contains(k) {
                            let x = choose|x: int|
                                0 <= x < r@.len() && lines_view(r@)[x] == k;
                            assert(lv[x] == k);
                        }
                        if k == sid@ {
                            assert(lv[r@.len() as int] == k);
                        }
                    }
                }
                r.push(name);
            } else {
                proof {
                    assert(lines_view(r@).contains(sid@));
                }
            }
            i = i + 1;
        }
        proof {
            assert(self@.take(self.rows@.len() as int) =~= self@);
        }
        r
    }
}

/// Whether some element of `v` equals `s` as a string.
fn vec_contains_string(v: &Vec<String>, s: &String) -> (b: bool)
    ensures
        b == lines_view(v@).contains(s@),
{
    let mut i: usize = 0;
    while i < v.len()
        invariant
            i <= v@.len(),
            forall|j: int| 0 <= j < i ==> v@[j]@ != s@,
        decreases v@.len() - i,
    {
        if v[i] == *s {
            proof {
                assert(lines_view(v@)[i as int] == s@);
            }
            return true;
        }
        i = i + 1;
    }
    proof {
        if lines_view(v@).contains(s@) {
            let j = choose|j: int| 0 <= j < v@.len() && lines_view(v@)[j] == s@;
            assert(v@[j]@ == s@);
        }
    }
    false
}

/// The connection location after scheme normalization: a location that
/// already names a `sqlite:` or `file:` scheme is kept, a bare filesystem
/// path gains the `sqlite:` scheme.
pub open spec fn spec_with_scheme(s: Seq<char>) -> Seq<char> {
    if spec_is_prefix(s, "sqlite:"@) || spec_is_prefix(s, "file:"@) {
        s
    } else {
        "sqlite:"@ + s
    }
}

/// The fully normalized connection location: scheme attached, and a
/// `mode=rwc` query parameter appended unless one mode is already named, so
/// the storage file is created when missing.
pub open spec fn spec_normalized_url(s: Seq<char>) -> Seq<char> {
    let u = spec_with_scheme(s);
    if spec_contains_sub(u, "mode="@) {
        u
    } else if spec_contains_char(u, '?') {
        u + "&mode=rwc"@
    } else {
        u + "?mode=rwc"@
    }
}

/// Normalizes a durable-store location: accepts either a fully qualified
/// connection string or a bare filesystem path, and ensures the result asks
/// the engine to create the storage file when it is absent. Ensuring that a
/// bare path's parent directories exist is filesystem work and stays with
/// the caller that opens the connection.
pub fn normalize_database_url(url: &str) -> (r: String)
    ensures
        r@ == spec_normalized_url(url@),
{
    let mut u = if str_starts_with(url, "sqlite:") || str_starts_with(url, "file:") {
        String::from_str(url)
    } else {
        let mut s = String::from_str("sqlite:");
        s.append(url);
        s
    };
    if !str_contains_sub(u.as_str(), "mode=") {
        if str_contains_char(u.as_str(), '?') {
            u.append("&mode=rwc");
        } else {
            u.append("?mode=rwc");
        }
    }
    u
}

} // verus!
