//! The two serializations of a session's history — structured turn rows and
//! the flattened `"User: …"/"Bot: …"` line form — and the pairing
//! reconstruction that is their common inverse.

use vstd::prelude::*;
use crate::turn::{
    bot_line, bot_prefix, spec_bot_line, spec_strip_prefix, spec_user_line, strip_line_prefix,
    user_line, user_prefix, ChatMessage, Turn,
};

verus! {

/// View of a vector of `(user, bot)` string pairs.
pub open spec fn pairs_view(ps: Seq<(String, String)>) -> Seq<(Seq<char>, Seq<char>)> {
    ps.map_values(|p: (String, String)| (p.0@, p.1@))
}

/// View of a vector of display lines.
pub open spec fn lines_view(ls: Seq<String>) -> Seq<Seq<char>> {
    ls.map_values(|l: String| l@)
}

/// View of a vector of stored turns.
pub open spec fn turns_view(rows: Seq<ChatMessage>) -> Seq<Turn> {
    rows.map_values(|m: ChatMessage| m@)
}

/// The `(user, bot)` pair carried by each turn, in order.
pub open spec fn spec_turn_pairs(rows: Seq<Turn>) -> Seq<(Seq<char>, Seq<char>)> {
    rows.map_values(|t: Turn| (t.user_message, t.bot_reply))
}

/// The flattened line form of a turn sequence: two display lines per turn,
/// in order.
pub open spec fn spec_flatten_turns(rows: Seq<Turn>) -> Seq<Seq<char>>
    decreases rows.len(),
{
    if rows.len() == 0 {
        Seq::empty()
    } else {
        seq![
            spec_user_line(rows[0].user_message),
            spec_bot_line(rows[0].bot_reply),
        ] + spec_flatten_turns(rows.skip(1))
    }
}

/// Pairing over a flattened line sequence: walk two lines at a time,
/// stripping the display prefixes; a trailing unpaired line is dropped.
pub open spec fn spec_pairs_of_lines(lines: Seq<Seq<char>>) -> Seq<(Seq<char>, Seq<char>)>
    decreases lines.len(),
{
    if lines.len() < 2 {
        Seq::empty()
    } else {
        seq![
            (
                spec_strip_prefix(lines[0], user_prefix()),
                spec_strip_prefix(lines[1], bot_prefix()),
            ),
        ] + spec_pairs_of_lines(lines.skip(2))
    }
}

/// Reconstructs `(user, bot)` pairs from a flattened line sequence.
///
/// Lines are consumed two at a time, the first of each pair losing a
/// `"User: "` prefix and the second a `"Bot: "` prefix when present. An
/// odd-length sequence drops exactly its final unpaired line; this is the
/// documented edge-case policy, not an error.
pub fn pairs_from_lines(lines: &Vec<String>) -> (r: Vec<(String, String)>)
    ensures
        pairs_view(r@) == spec_pairs_of_lines(lines_view(lines@)),
{
    let ghost lv = lines_view(lines@);
    let mut r: Vec<(String, String)> = Vec::new();
    let mut i: usize = 0;
    proof {
        assert(lv.skip(0) =~= lv);
        assert(pairs_view(r@) + spec_pairs_of_lines(lv) =~= spec_pairs_of_lines(lv));
    }
    while i + 1 < lines.len()
        invariant
            i % 2 == 0,
            i <= lines.len(),
            lv == lines_view(lines@),
            pairs_view(r@) + spec_pairs_of_lines(lv.skip(i as int)) == spec_pairs_of_lines(lv),
        decreases lines.len() - i,
    {
        let user = strip_line_prefix(&lines[i], "User: ");
        let bot = strip_line_prefix(&lines[i + 1], "Bot: ");
        proof {
            let tail = lv.skip(i as int);
            assert(tail.len() >= 2);
            assert(tail[0] == lv[i as int]);
            assert(tail[1] == lv[i as int + 1]);
            assert(tail.skip(2) =~= lv.skip(i as int + 2));
            assert(pairs_view(r@.push((user, bot))) =~= pairs_view(r@).push(
                (user@, bot@),
            ));
        }
        r.push((user, bot));
        i = i + 2;
        proof {
            assert(pairs_view(r@) + spec_pairs_of_lines(lv.skip(i as int)) =~= spec_pairs_of_lines(
                lv,
            ));
        }
    }
    proof {
        assert(spec_pairs_of_lines(lv.skip(i as int)) =~= Seq::empty());
        assert(pairs_view(r@) =~= spec_pairs_of_lines(lv));
    }
    r
}

/// Flattens stored turns into the display line form: each turn becomes a
/// `"User: …"` line followed by a `"Bot: …"` line, in stored order.
pub fn rows_to_lines(rows: &Vec<ChatMessage>) -> (r: Vec<String>)
    ensures
        lines_view(r@) == spec_flatten_turns(turns_view(rows@)),
{
    let ghost tv = turns_view(rows@);
    let mut r: Vec<String> = Vec::new();
    let mut i: usize = 0;
    proof {
        assert(tv.skip(0) =~= tv);
        assert(lines_view(r@) + spec_flatten_turns(tv) =~= spec_flatten_turns(tv));
    }
    while i < rows.len()
        invariant
            i <= rows.len(),
            tv == turns_view(rows@),
            lines_view(r@) + spec_flatten_turns(tv.skip(i as int)) == spec_flatten_turns(tv),
        decreases rows.len() - i,
    {
        let ul = user_line(rows[i].user_message.as_str());
        let bl = bot_line(rows[i].bot_reply.as_str());
        proof {
            let tail = tv.skip(i as int);
            assert(tail[0] == tv[i as int]);
            assert(tail.skip(1) =~= tv.skip(i as int + 1));
            assert(lines_view(r@.push(ul).push(bl)) =~= lines_view(r@) + seq![ul@, bl@]);
        }
        r.push(ul);
        r.push(bl);
        i = i + 1;
        proof {
            assert(lines_view(r@) + spec_flatten_turns(tv.skip(i as int)) =~= spec_flatten_turns(
                tv,
            ));
        }
    }
    proof {
        assert(lines_view(r@) =~= spec_flatten_turns(tv));
    }
    r
}

/// Projects stored turns onto their `(user, bot)` pairs, one pair per turn,
/// in stored order.
pub fn rows_to_pairs(rows: &Vec<ChatMessage>) -> (r: Vec<(String, String)>)
    ensures
        pairs_view(r@) == spec_turn_pairs(turns_view(rows@)),
{
    let mut r: Vec<(String, String)> = Vec::new();
    let mut i: usize = 0;
    while i < rows.len()
        invariant
            i <= rows.len(),
            pairs_view(r@) == spec_turn_pairs(turns_view(rows@)).take(i as int),
        decreases rows.len() - i,
    {
        let user = rows[i].user_message.clone();
        let bot = rows[i].bot_reply.clone();
        proof {
            assert(user@ == rows@[i as int].user_message@);
            assert(bot@ == rows@[i as int].bot_reply@);
            assert(turns_view(rows@)[i as int] == rows@[i as int]@);
            assert(spec_turn_pairs(turns_view(rows@))[i as int] == (
                rows@[i as int].user_message@,
                rows@[i as int].bot_reply@,
            ));
            let tp = spec_turn_pairs(turns_view(rows@));
            assert(pairs_view(r@.push((user, bot))) =~= pairs_view(r@).push((user@, bot@)));
            assert(tp.take(i as int + 1) =~= tp.take(i as int).push(tp[i as int]));
            assert(pairs_view(r@.push((user, bot))) == tp.take(i as int + 1));
        }
        r.push((user, bot));
        i = i + 1;
    }
    proof {
        assert(spec_turn_pairs(turns_view(rows@)).take(rows@.len() as int) =~= spec_turn_pairs(
            turns_view(rows@),
        ));
    }
    r
}

/// Stripping a display prefix undoes attaching it.
pub proof fn lemma_strip_user_line(msg: Seq<char>)
    ensures
        spec_strip_prefix(spec_user_line(msg), user_prefix()) == msg,
{
    let line = spec_user_line(msg);
    assert(line.subrange(0, user_prefix().len() as int) =~= user_prefix());
    assert(line.subrange(user_prefix().len() as int, line.len() as int) =~= msg);
}

/// Stripping a display prefix undoes attaching it.
pub proof fn lemma_strip_bot_line(msg: Seq<char>)
    ensures
        spec_strip_prefix(spec_bot_line(msg), bot_prefix()) == msg,
{
    let line = spec_bot_line(msg);
    assert(line.subrange(0, bot_prefix().len() as int) =~= bot_prefix());
    assert(line.subrange(bot_prefix().len() as int, line.len() as int) =~= msg);
}

/// The pairing reconstruction is the exact inverse of flattening: for every
/// turn sequence, pairing the flattened line form yields one `(user, bot)`
/// pair per turn, in order — the durable (structured) and volatile
/// (flattened) serializations carry the same pair view.
pub proof fn lemma_pairs_of_flatten(rows: Seq<Turn>)
    ensures
        spec_pairs_of_lines(spec_flatten_turns(rows)) == spec_turn_pairs(rows),
    decreases rows.len(),
{
    if rows.len() == 0 {
        assert(spec_pairs_of_lines(spec_flatten_turns(rows)) =~= spec_turn_pairs(rows));
    } else {
        let flat = spec_flatten_turns(rows);
        let head = seq![
            spec_user_line(rows[0].user_message),
            spec_bot_line(rows[0].bot_reply),
        ];
        assert(flat == head + spec_flatten_turns(rows.skip(1)));
        assert(flat.len() >= 2);
        assert(flat[0] == spec_user_line(rows[0].user_message));
        assert(flat[1] == spec_bot_line(rows[0].bot_reply));
        assert(flat.skip(2) =~= spec_flatten_turns(rows.skip(1)));
        lemma_strip_user_line(rows[0].user_message);
        lemma_strip_bot_line(rows[0].bot_reply);
        lemma_pairs_of_flatten(rows.skip(1));
        assert(spec_pairs_of_lines(flat) =~= spec_turn_pairs(rows));
    }
}

} // verus!
