use vstd::prelude::*;
use vstd::hash_set::StringHashSet;

use crate::room_id::{is_room_id, parse_room_id};
use crate::text::{lemma_trimmed, trim_str, trimmed};

verus! {

/// `s` cut at every comma, as `str::split(',')` cuts it: one more piece than
/// there are commas, empty pieces included.
pub open spec fn split_commas(s: Seq<char>) -> Seq<Seq<char>>
    decreases s.len(),
{
    if s.len() == 0 {
        seq![Seq::empty()]
    } else {
        let init = split_commas(s.drop_last());
        if s.last() == ',' {
            init.push(Seq::empty())
        } else {
            init.update(init.len() - 1, init.last().push(s.last()))
        }
    }
}

/// One piece of a room list added to the rooms gathered so far: the piece is
/// trimmed; an empty piece is dropped; a piece that is not a room ID stops the
/// list with that (trimmed) piece as the error; a room already present is not
/// added again.
pub open spec fn add_room_piece(
    acc: Result<Seq<Seq<char>>, Seq<char>>,
    piece: Seq<char>,
) -> Result<Seq<Seq<char>>, Seq<char>> {
    match acc {
        Err(bad) => Err(bad),
        Ok(rooms) => {
            let t = trimmed(piece);
            if t.len() == 0 {
                Ok(rooms)
            } else if !is_room_id(t) {
                Err(t)
            } else if rooms.contains(t) {
                Ok(rooms)
            } else {
                Ok(rooms.push(t))
            }
        },
    }
}

/// The rooms named by `pieces`, in order of first appearance, or the first
/// piece that is not a room ID.
pub open spec fn gather_rooms(pieces: Seq<Seq<char>>) -> Result<Seq<Seq<char>>, Seq<char>>
    decreases pieces.len(),
{
    if pieces.len() == 0 {
        Ok(Seq::empty())
    } else {
        add_room_piece(gather_rooms(pieces.drop_last()), pieces.last())
    }
}

/// The views of a list of strings.
pub open spec fn string_views(v: Seq<String>) -> Seq<Seq<char>> {
    v.map_values(|s: String| s@)
}

/// Why a room list was refused.
#[derive(Debug, PartialEq, Eq)]
pub enum RoomListError {
    /// This entry, trimmed, is not a valid room ID, for the reason that
    /// ruma gives.
    InvalidRoomId { entry: String, error: ruma::IdParseError },
    /// The list names no room at all.
    NoRooms,
}

/// What `parse_room_list` gives for the text `raw`.
pub open spec fn room_list_result(raw: Seq<char>) -> Result<Seq<Seq<char>>, Option<Seq<char>>> {
    match gather_rooms(split_commas(raw)) {
        Err(bad) => Err(Some(bad)),
        Ok(rooms) => if rooms.len() == 0 {
            Err(None)
        } else {
            Ok(rooms)
        },
    }
}

/// The trimmed pieces that are not blank, in order.
pub open spec fn nonblank_trimmed(pieces: Seq<Seq<char>>) -> Seq<Seq<char>>
    decreases pieces.len(),
{
    if pieces.len() == 0 {
        Seq::empty()
    } else {
        let init = nonblank_trimmed(pieces.drop_last());
        let t = trimmed(pieces.last());
        if t.len() == 0 {
            init
        } else {
            init.push(t)
        }
    }
}

/// `s` with every later repeat removed: each value stays once, at its first
/// place.
pub open spec fn without_repeats(s: Seq<Seq<char>>) -> Seq<Seq<char>>
    decreases s.len(),
{
    if s.len() == 0 {
        Seq::empty()
    } else {
        let init = without_repeats(s.drop_last());
        if init.contains(s.last()) {
            init
        } else {
            init.push(s.last())
        }
    }
}

/// The rooms written as one list, separated by commas.
pub open spec fn join_commas(rooms: Seq<Seq<char>>) -> Seq<char>
    decreases rooms.len(),
{
    if rooms.len() == 0 {
        Seq::empty()
    } else if rooms.len() == 1 {
        rooms[0]
    } else {
        join_commas(rooms.drop_last()) + seq![','] + rooms.last()
    }
}

/// `raw` with the entries `extra` appended, each after a comma.
pub open spec fn append_entries(raw: Seq<char>, extra: Seq<Seq<char>>) -> Seq<char>
    decreases extra.len(),
{
    if extra.len() == 0 {
        raw
    } else {
        append_entries(raw, extra.drop_last()) + seq![','] + extra.last()
    }
}

proof fn lemma_split_commas_nonempty(s: Seq<char>)
    ensures
        split_commas(s).len() >= 1,
    decreases s.len(),
{
    if s.len() > 0 {
        lemma_split_commas_nonempty(s.drop_last());
    }
}

/// No piece holds a comma.
proof fn lemma_split_pieces_have_no_comma(s: Seq<char>)
    ensures
        forall|k: int| 0 <= k < split_commas(s).len() ==> !(#[trigger] split_commas(s)[k]).contains(','),
    decreases s.len(),
{
    if s.len() > 0 {
        let init = s.drop_last();
        lemma_split_pieces_have_no_comma(init);
        lemma_split_commas_nonempty(init);
        let sp = split_commas(init);
        if s.last() != ',' {
            let last = sp.last().push(s.last());
            assert(!last.contains(',')) by {
                if last.contains(',') {
                    let j = choose|j: int| 0 <= j < last.len() && last[j] == ',';
                    if j < sp.last().len() {
                        assert(sp.last()[j] == ',');
                        assert(sp[sp.len() - 1] == sp.last());
                    }
                }
            }
            assert forall|k: int| 0 <= k < split_commas(s).len() implies !(#[trigger] split_commas(s)[k]).contains(',') by {
                if k < sp.len() - 1 {
                    assert(split_commas(s)[k] == sp[k]);
                }
            }
        } else {
            assert forall|k: int| 0 <= k < split_commas(s).len() implies !(#[trigger] split_commas(s)[k]).contains(',') by {
                if k < sp.len() {
                    assert(split_commas(s)[k] == sp[k]);
                } else {
                    assert(split_commas(s)[k] =~= Seq::<char>::empty());
                }
            }
        }
    }
}

/// Text without a comma, appended, only extends the last piece.
proof fn lemma_split_append(x: Seq<char>, y: Seq<char>)
    requires
        !y.contains(','),
    ensures
        split_commas(x + y) == split_commas(x).update(
            split_commas(x).len() - 1,
            split_commas(x).last() + y,
        ),
    decreases y.len(),
{
    lemma_split_commas_nonempty(x);
    let sp = split_commas(x);
    if y.len() == 0 {
        assert(x + y =~= x);
        assert(sp.last() + y =~= sp.last());
        assert(sp.update(sp.len() - 1, sp.last() + y) =~= sp);
    } else {
        let yd = y.drop_last();
        assert(!yd.contains(',')) by {
            if yd.contains(',') {
                let j = choose|j: int| 0 <= j < yd.len() && yd[j] == ',';
                assert(y[j] == ',');
            }
        }
        assert(y.last() != ',') by {
            assert(y[y.len() - 1] == y.last());
        }
        lemma_split_append(x, yd);
        assert((x + y).drop_last() =~= x + yd);
        assert((x + y).last() == y.last());
        assert((sp.last() + yd).push(y.last()) =~= sp.last() + y);
        assert(split_commas(x + y) =~= sp.update(sp.len() - 1, sp.last() + y));
    }
}

/// A comma and then text without a comma adds that text as a new piece.
proof fn lemma_split_comma_then(a: Seq<char>, b: Seq<char>)
    requires
        !b.contains(','),
    ensures
        split_commas(a + seq![','] + b) == split_commas(a).push(b),
{
    let x = a + seq![','];
    assert(x.drop_last() =~= a);
    assert(x.last() == ',');
    assert(split_commas(x) == split_commas(a).push(Seq::empty()));
    lemma_split_append(x, b);
    assert(Seq::<char>::empty() + b =~= b);
    assert(split_commas(a).push(Seq::empty()).update(split_commas(a).len() as int, b) =~= split_commas(a).push(b));
}

proof fn lemma_split_joined(rooms: Seq<Seq<char>>)
    requires
        rooms.len() > 0,
        forall|k: int| 0 <= k < rooms.len() ==> !(#[trigger] rooms[k]).contains(','),
    ensures
        split_commas(join_commas(rooms)) == rooms,
    decreases rooms.len(),
{
    if rooms.len() == 1 {
        lemma_split_append(Seq::empty(), rooms[0]);
        assert(Seq::<char>::empty() + rooms[0] =~= rooms[0]);
        assert(split_commas(Seq::<char>::empty()) =~= seq![Seq::<char>::empty()]);
        assert(split_commas(rooms[0]) =~= rooms);
    } else {
        let init = rooms.drop_last();
        assert(rooms.last() == rooms[rooms.len() - 1]);
        lemma_split_joined(init);
        lemma_split_comma_then(join_commas(init), rooms.last());
        assert(init.push(rooms.last()) =~= rooms);
    }
}

proof fn lemma_split_appended(raw: Seq<char>, extra: Seq<Seq<char>>)
    requires
        forall|k: int| 0 <= k < extra.len() ==> !(#[trigger] extra[k]).contains(','),
    ensures
        split_commas(append_entries(raw, extra)) == split_commas(raw) + extra,
    decreases extra.len(),
{
    if extra.len() == 0 {
        assert(split_commas(raw) + extra =~= split_commas(raw));
    } else {
        let init = extra.drop_last();
        assert(extra.last() == extra[extra.len() - 1]);
        lemma_split_appended(raw, init);
        lemma_split_comma_then(append_entries(raw, init), extra.last());
        assert((split_commas(raw) + init).push(extra.last()) =~= split_commas(raw) + extra);
    }
}

proof fn lemma_join_extended(p: Seq<Seq<char>>, y: Seq<char>)
    requires
        p.len() >= 1,
    ensures
        join_commas(p.update(p.len() - 1, p.last() + y)) == join_commas(p) + y,
{
    let q = p.update(p.len() - 1, p.last() + y);
    if p.len() == 1 {
        assert(q[0] == p[0] + y);
    } else {
        assert(q.drop_last() =~= p.drop_last());
        assert(q.last() == p.last() + y);
        assert(join_commas(p.drop_last()) + seq![','] + (p.last() + y) =~= join_commas(p.drop_last())
            + seq![','] + p.last() + y);
    }
}

/// Cutting at the commas loses nothing: the pieces hold no comma, and put
/// back together with commas between them they are the text again.
pub proof fn law_split_commas_cuts_at_commas(s: Seq<char>)
    ensures
        split_commas(s).len() >= 1,
        forall|k: int| 0 <= k < split_commas(s).len() ==> !(#[trigger] split_commas(s)[k]).contains(','),
        join_commas(split_commas(s)) == s,
    decreases s.len(),
{
    lemma_split_commas_nonempty(s);
    lemma_split_pieces_have_no_comma(s);
    if s.len() == 0 {
        assert(split_commas(s) =~= seq![Seq::<char>::empty()]);
        assert(join_commas(split_commas(s)) =~= s);
    } else {
        let init = s.drop_last();
        law_split_commas_cuts_at_commas(init);
        let sp = split_commas(init);
        if s.last() == ',' {
            let q = sp.push(Seq::<char>::empty());
            assert(q.drop_last() =~= sp);
            assert(join_commas(q) == join_commas(sp) + seq![','] + q.last());
            assert(join_commas(q) =~= s);
        } else {
            lemma_join_extended(sp, seq![s.last()]);
            assert(sp.last().push(s.last()) =~= sp.last() + seq![s.last()]);
            assert(init + seq![s.last()] =~= s);
        }
    }
}

/// Rooms that are valid, trimmed and distinct are gathered as they are.
proof fn lemma_gather_distinct_rooms(rooms: Seq<Seq<char>>)
    requires
        forall|k: int| 0 <= k < rooms.len() ==> is_room_id(#[trigger] rooms[k]),
        forall|k: int| 0 <= k < rooms.len() ==> trimmed(#[trigger] rooms[k]) == rooms[k],
        forall|i: int, j: int| 0 <= i < j < rooms.len() ==> rooms[i] != rooms[j],
    ensures
        gather_rooms(rooms) == Ok::<Seq<Seq<char>>, Seq<char>>(rooms),
    decreases rooms.len(),
{
    if rooms.len() > 0 {
        let init = rooms.drop_last();
        let n = rooms.len() - 1;
        assert(rooms.last() == rooms[n]);
        assert forall|k: int| 0 <= k < init.len() implies #[trigger] init[k] == rooms[k] by {}
        lemma_gather_distinct_rooms(init);
        assert(!init.contains(rooms[n])) by {
            if init.contains(rooms[n]) {
                let k = choose|k: int| 0 <= k < init.len() && init[k] == rooms[n];
                assert(rooms[k] == rooms[n]);
            }
        }
        assert(trimmed(rooms[n]) == rooms[n]);
        assert(is_room_id(rooms[n]));
        assert(init.push(rooms.last()) =~= rooms);
        assert(gather_rooms(rooms) == add_room_piece(gather_rooms(init), rooms[n]));
    } else {
        assert(rooms =~= Seq::<Seq<char>>::empty());
    }
}

/// Blank pieces and pieces naming rooms already gathered change nothing.
proof fn lemma_gather_ignores_blanks_and_repeats(p: Seq<Seq<char>>, extra: Seq<Seq<char>>)
    requires
        gather_rooms(p) is Ok,
        forall|k: int| 0 <= k < extra.len() ==> trimmed(#[trigger] extra[k]).len() == 0
            || gather_rooms(p)->Ok_0.contains(trimmed(extra[k])),
    ensures
        gather_rooms(p + extra) == gather_rooms(p),
    decreases extra.len(),
{
    if extra.len() == 0 {
        assert(p + extra =~= p);
    } else {
        let init = extra.drop_last();
        assert(extra.last() == extra[extra.len() - 1]);
        assert forall|k: int| 0 <= k < init.len() implies trimmed(#[trigger] init[k]).len() == 0
            || gather_rooms(p)->Ok_0.contains(trimmed(init[k])) by {
            assert(init[k] == extra[k]);
        }
        lemma_gather_ignores_blanks_and_repeats(p, init);
        assert((p + extra).drop_last() =~= p + init);
        assert((p + extra).last() == extra.last());
        let n = extra.len() - 1;
        let rooms = gather_rooms(p)->Ok_0;
        assert(trimmed(extra[n]).len() == 0 || rooms.contains(trimmed(extra[n])));
        lemma_gather_rooms_shape(p);
        if trimmed(extra[n]).len() > 0 {
            let j = choose|j: int| 0 <= j < rooms.len() && rooms[j] == trimmed(extra[n]);
            assert(is_room_id(rooms[j]));
        }
        assert(gather_rooms(p + extra) == add_room_piece(gather_rooms(p + init), extra[n]));
    }
}

/// The rooms gathered are the trimmed, non-blank pieces without repeats.
proof fn lemma_gather_is_first_occurrences(pieces: Seq<Seq<char>>)
    ensures
        gather_rooms(pieces) matches Ok(rooms) ==> rooms == without_repeats(nonblank_trimmed(pieces)),
    decreases pieces.len(),
{
    if pieces.len() > 0 {
        lemma_gather_is_first_occurrences(pieces.drop_last());
        let t = trimmed(pieces.last());
        if t.len() > 0 {
            assert(nonblank_trimmed(pieces).drop_last() =~= nonblank_trimmed(pieces.drop_last()));
        }
    }
}

/// Once a piece is refused, the pieces after it change nothing.
proof fn lemma_gather_error_sticks(p: Seq<Seq<char>>, q: Seq<Seq<char>>)
    requires
        gather_rooms(p) is Err,
        p.len() <= q.len(),
        q.take(p.len() as int) == p,
    ensures
        gather_rooms(q) == gather_rooms(p),
    decreases q.len(),
{
    if q.len() > p.len() {
        let q0 = q.drop_last();
        assert(q0.take(p.len() as int) =~= q.take(p.len() as int));
        lemma_gather_error_sticks(p, q0);
    } else {
        assert(q =~= q.take(p.len() as int));
    }
}

/// What holds of the rooms gathered from any list of pieces.
proof fn lemma_gather_rooms_shape(pieces: Seq<Seq<char>>)
    ensures
        gather_rooms(pieces) matches Ok(rooms) ==> {
            &&& forall|i: int, j: int| 0 <= i < j < rooms.len() ==> rooms[i] != rooms[j]
            &&& forall|k: int| 0 <= k < rooms.len() ==> is_room_id(#[trigger] rooms[k])
            &&& forall|k: int| 0 <= k < rooms.len() ==> exists|m: int|
                0 <= m < pieces.len() && trimmed(#[trigger] pieces[m]) == #[trigger] rooms[k]
            &&& forall|m: int| 0 <= m < pieces.len() && trimmed(#[trigger] pieces[m]).len() > 0
                ==> rooms.contains(trimmed(pieces[m]))
        },
        gather_rooms(pieces) matches Err(bad) ==> {
            &&& bad.len() > 0
            &&& !is_room_id(bad)
            &&& exists|m: int| 0 <= m < pieces.len() && trimmed(#[trigger] pieces[m]) == bad
        },
    decreases pieces.len(),
{
    if pieces.len() > 0 {
        let init = pieces.drop_last();
        lemma_gather_rooms_shape(init);
        let last = pieces.last();
        let t = trimmed(last);
        let n = (pieces.len() - 1) as int;
        assert(pieces[n] == last);
        assert forall|m: int| 0 <= m < init.len() implies pieces[m] == #[trigger] init[m] by {}
        match gather_rooms(init) {
            Err(bad) => {
                let m = choose|m: int| 0 <= m < init.len() && trimmed(#[trigger] init[m]) == bad;
                assert(pieces[m] == init[m]);
            },
            Ok(rooms) => {
                if t.len() > 0 && !is_room_id(t) {
                    assert(trimmed(pieces[n]) == t);
                } else {
                    let out = gather_rooms(pieces)->Ok_0;
                    assert forall|k: int| 0 <= k < out.len() implies exists|m: int|
                        0 <= m < pieces.len() && trimmed(#[trigger] pieces[m]) == #[trigger] out[k] by {
                        if k < rooms.len() {
                            let m = choose|m: int| 0 <= m < init.len() && trimmed(#[trigger] init[m]) == rooms[k];
                            assert(pieces[m] == init[m]);
                        } else {
                            assert(trimmed(pieces[n]) == out[k]);
                        }
                    }
                    assert forall|m: int| 0 <= m < pieces.len() && trimmed(#[trigger] pieces[m]).len() > 0
                        implies out.contains(trimmed(pieces[m])) by {
                        if m < n {
                            assert(pieces[m] == init[m]);
                            let x = trimmed(pieces[m]);
                            let k = choose|k: int| 0 <= k < rooms.len() && rooms[k] == x;
                            assert(out[k] == x);
                        } else {
                            if !rooms.contains(t) {
                                assert(out[rooms.len() as int] == t);
                            }
                        }
                    }
                }
            },
        }
    }
}

/// A room list that is accepted holds each room once, holds only valid room
/// IDs, and holds exactly the trimmed, non-empty entries of the text.
pub proof fn law_accepted_room_list(raw: Seq<char>)
    ensures
        room_list_result(raw) matches Ok(rooms) ==> {
            let pieces = split_commas(raw);
            &&& rooms.len() > 0
            &&& forall|i: int, j: int| 0 <= i < j < rooms.len() ==> rooms[i] != rooms[j]
            &&& forall|k: int| 0 <= k < rooms.len() ==> is_room_id(#[trigger] rooms[k])
            &&& forall|k: int| 0 <= k < rooms.len() ==> exists|m: int|
                0 <= m < pieces.len() && trimmed(#[trigger] pieces[m]) == #[trigger] rooms[k]
            &&& forall|m: int| 0 <= m < pieces.len() && trimmed(#[trigger] pieces[m]).len() > 0
                ==> rooms.contains(trimmed(pieces[m]))
        },
{
    lemma_gather_rooms_shape(split_commas(raw));
}

/// A room list is refused only for an entry that, trimmed, is not empty and
/// is not a room ID, or for naming no room.
pub proof fn law_refused_room_list(raw: Seq<char>)
    ensures
        room_list_result(raw) matches Err(Some(bad)) ==> {
            let pieces = split_commas(raw);
            &&& bad.len() > 0
            &&& !is_room_id(bad)
            &&& exists|m: int| 0 <= m < pieces.len() && trimmed(#[trigger] pieces[m]) == bad
        },
        room_list_result(raw) matches Err(None) ==> {
            let pieces = split_commas(raw);
            forall|m: int| 0 <= m < pieces.len() ==> trimmed(#[trigger] pieces[m]).len() == 0
        },
{
    lemma_gather_rooms_shape(split_commas(raw));
}

/// Whether `rooms` come in the order in which `pieces` first name them: a
/// room listed before another is named in an earlier piece than any piece
/// naming the other.
pub open spec fn in_first_mention_order(pieces: Seq<Seq<char>>, rooms: Seq<Seq<char>>) -> bool {
    forall|i: int, j: int, m: int|
        #![trigger trimmed(pieces[m]), rooms[j], rooms[i]]
        0 <= i < j < rooms.len() && 0 <= m < pieces.len() && trimmed(pieces[m]) == rooms[j]
            ==> named_before(pieces, m, rooms[i])
}

/// Whether one of the first `m` pieces, trimmed, is `room`.
pub open spec fn named_before(pieces: Seq<Seq<char>>, m: int, room: Seq<char>) -> bool {
    exists|m2: int| 0 <= m2 < m && trimmed(#[trigger] pieces[m2]) == room
}

proof fn lemma_gather_keeps_first_order(pieces: Seq<Seq<char>>)
    ensures
        gather_rooms(pieces) matches Ok(rooms) ==> in_first_mention_order(pieces, rooms),
    decreases pieces.len(),
{
    if pieces.len() > 0 && gather_rooms(pieces) is Ok {
        let init = pieces.drop_last();
        let n = pieces.len() - 1;
        lemma_gather_keeps_first_order(init);
        lemma_gather_rooms_shape(init);
        lemma_gather_rooms_shape(pieces);
        let rooms = gather_rooms(pieces)->Ok_0;
        let r0 = gather_rooms(init)->Ok_0;
        let t = trimmed(pieces.last());
        assert(pieces[n] == pieces.last());
        assert forall|k: int| 0 <= k < init.len() implies pieces[k] == #[trigger] init[k] by {}
        assert forall|i: int, j: int, m: int|
            #![trigger trimmed(pieces[m]), rooms[j], rooms[i]]
            0 <= i < j < rooms.len() && 0 <= m < pieces.len() && trimmed(pieces[m])
                == rooms[j] implies named_before(pieces, m, rooms[i]) by {
            if j < r0.len() {
                assert(rooms[j] == r0[j] && rooms[i] == r0[i]);
                if m < n {
                    assert(trimmed(init[m]) == r0[j]);
                    let m2 = choose|m2: int| 0 <= m2 < m && trimmed(#[trigger] init[m2]) == r0[i];
                    assert(trimmed(pieces[m2]) == rooms[i]);
                } else {
                    let m0 = choose|m0: int| 0 <= m0 < init.len() && trimmed(#[trigger] init[m0]) == r0[j];
                    assert(trimmed(init[m0]) == r0[j]);
                    let m2 = choose|m2: int| 0 <= m2 < m0 && trimmed(#[trigger] init[m2]) == r0[i];
                    assert(trimmed(pieces[m2]) == rooms[i]);
                }
            } else {
                assert(rooms[i] == r0[i]);
                let m2 = choose|m2: int| 0 <= m2 < init.len() && trimmed(#[trigger] init[m2]) == r0[i];
                assert(trimmed(pieces[m2]) == rooms[i]);
                if m < n {
                    assert(trimmed(init[m]) == rooms[j]);
                    assert(trimmed(init[m]).len() > 0);
                    assert(r0.contains(trimmed(init[m])));
                    assert(false);
                }
            }
        }
    }
}

/// The rooms of an accepted list come in the order of their first mention:
/// a room listed before another was named in an earlier entry than any
/// entry naming the other.
pub proof fn law_accepted_rooms_keep_first_mention_order(raw: Seq<char>)
    ensures
        room_list_result(raw) matches Ok(rooms) ==> in_first_mention_order(split_commas(raw), rooms),
{
    lemma_gather_keeps_first_order(split_commas(raw));
    if room_list_result(raw) is Ok {
        assert(gather_rooms(split_commas(raw)) == Ok::<Seq<Seq<char>>, Seq<char>>(
            room_list_result(raw)->Ok_0,
        ));
    }
}

/// An accepted room list is the list's trimmed, non-blank entries, each
/// kept once at its first place.
pub proof fn law_accepted_rooms_are_first_occurrences(raw: Seq<char>)
    ensures
        room_list_result(raw) matches Ok(rooms) ==> rooms == without_repeats(
            nonblank_trimmed(split_commas(raw)),
        ),
{
    lemma_gather_is_first_occurrences(split_commas(raw));
}

/// The rooms of an accepted list, written back as one comma-separated list,
/// parse to the same rooms in the same order.
pub proof fn law_joined_room_list_parses_back(raw: Seq<char>)
    ensures
        room_list_result(raw) matches Ok(rooms) ==> room_list_result(join_commas(rooms)) == Ok::<
            Seq<Seq<char>>,
            Option<Seq<char>>,
        >(rooms),
{
    let pieces = split_commas(raw);
    lemma_gather_rooms_shape(pieces);
    lemma_split_pieces_have_no_comma(raw);
    if room_list_result(raw) is Ok {
        let rooms = room_list_result(raw)->Ok_0;
        assert forall|k: int| 0 <= k < rooms.len() implies trimmed(#[trigger] rooms[k]) == rooms[k]
            && !rooms[k].contains(',') by {
            let m = choose|m: int| 0 <= m < pieces.len() && trimmed(#[trigger] pieces[m]) == rooms[k];
            lemma_trimmed(pieces[m], ',');
        }
        lemma_split_joined(rooms);
        lemma_gather_distinct_rooms(rooms);
    }
}

/// Appending entries that are blank, or that name, perhaps with white space
/// around it, a room the list already accepts, changes nothing: the same
/// rooms in the same order.
pub proof fn law_blank_or_repeated_entries_change_nothing(raw: Seq<char>, extra: Seq<Seq<char>>)
    requires
        room_list_result(raw) is Ok,
        forall|k: int| 0 <= k < extra.len() ==> trimmed(#[trigger] extra[k]).len() == 0
            || room_list_result(raw)->Ok_0.contains(trimmed(extra[k])),
    ensures
        room_list_result(append_entries(raw, extra)) == room_list_result(raw),
{
    let pieces = split_commas(raw);
    let rooms = room_list_result(raw)->Ok_0;
    lemma_gather_rooms_shape(pieces);
    lemma_split_pieces_have_no_comma(raw);
    assert forall|k: int| 0 <= k < extra.len() implies !(#[trigger] extra[k]).contains(',') by {
        lemma_trimmed(extra[k], ',');
        if extra[k].contains(',') {
            assert(trimmed(extra[k]).contains(','));
            let j = choose|j: int| 0 <= j < rooms.len() && rooms[j] == trimmed(extra[k]);
            let m = choose|m: int| 0 <= m < pieces.len() && trimmed(#[trigger] pieces[m]) == rooms[j];
            lemma_trimmed(pieces[m], ',');
        }
    }
    lemma_split_appended(raw, extra);
    lemma_gather_ignores_blanks_and_repeats(pieces, extra);
}

/// Cuts `raw` at every comma.
fn split_at_commas(raw: &str) -> (pieces: Vec<String>)
    ensures
        string_views(pieces@) == split_commas(raw@),
{
    let n = raw.unicode_len();
    let mut pieces: Vec<String> = Vec::new();
    let mut start: usize = 0;
    let mut i: usize = 0;
    proof {
        assert(raw@.take(0) =~= Seq::<char>::empty());
    }
    while i < n
        invariant
            n == raw@.len(),
            start <= i <= n,
            ({
                let sp = split_commas(raw@.take(i as int));
                &&& sp.len() >= 1
                &&& string_views(pieces@) == sp.drop_last()
                &&& sp.last() == raw@.subrange(start as int, i as int)
            }),
        decreases n - i,
    {
        let c = raw.get_char(i);
        let ghost prefix = raw@.take(i + 1);
        proof {
            assert(prefix.drop_last() =~= raw@.take(i as int));
            assert(prefix.last() == c);
        }
        if c == ',' {
            let piece = String::from_str(raw.substring_char(start, i));
            let ghost before = pieces@;
            pieces.push(piece);
            start = i + 1;
            proof {
                let sp = split_commas(raw@.take(i as int));
                let sp2 = split_commas(prefix);
                assert(sp2 == sp.push(Seq::<char>::empty()));
                assert(pieces@ == before.push(piece));
                assert(string_views(pieces@) =~= string_views(before).push(piece@));
                assert(string_views(pieces@) =~= sp2.drop_last());
                assert(raw@.subrange(start as int, (i + 1) as int) =~= Seq::<char>::empty());
            }
        } else {
            proof {
                let sp = split_commas(raw@.take(i as int));
                let sp2 = split_commas(prefix);
                assert(sp2 == sp.update(sp.len() - 1, sp.last().push(c)));
                assert(sp2.drop_last() =~= sp.drop_last());
                assert(raw@.subrange(start as int, (i + 1) as int) =~= raw@.subrange(
                    start as int,
                    i as int,
                ).push(c));
            }
        }
        i = i + 1;
    }
    let last = String::from_str(raw.substring_char(start, n));
    let ghost before = pieces@;
    pieces.push(last);
    proof {
        assert(string_views(pieces@) =~= string_views(before).push(last@));
        assert(raw@.take(n as int) =~= raw@);
        let sp = split_commas(raw@);
        assert(string_views(pieces@) =~= sp.drop_last().push(sp.last()));
        assert(sp.drop_last().push(sp.last()) =~= sp);
    }
    pieces
}

/// Whether `rooms` already holds `room`.
pub(crate) fn holds_room(rooms: &Vec<String>, room: &String) -> (found: bool)
    ensures
        found == string_views(rooms@).contains(room@),
{
    let mut j: usize = 0;
    while j < rooms.len()
        invariant
            j <= rooms.len(),
            forall|k: int| 0 <= k < j ==> rooms@[k]@ != room@,
        decreases rooms.len() - j,
    {
        if rooms[j] == *room {
            proof {
                assert(string_views(rooms@)[j as int] == room@);
            }
            return true;
        }
        j = j + 1;
    }
    proof {
        if string_views(rooms@).contains(room@) {
            let k = choose|k: int| 0 <= k < rooms@.len() && string_views(rooms@)[k] == room@;
            assert(rooms@[k]@ == room@);
        }
    }
    false
}

/// Parses a comma-separated list of room IDs: each entry is trimmed, empty
/// entries are dropped, every other entry must be a valid room ID, and a room
/// named twice is kept once, at its first place. A list that names no room
/// is refused.
pub fn parse_room_list(raw: &str) -> (r: Result<Vec<String>, RoomListError>)
    ensures
        match room_list_result(raw@) {
            Ok(rooms) => r matches Ok(v) && string_views(v@) == rooms,
            Err(Some(bad)) => r matches Err(RoomListError::InvalidRoomId { entry, .. }) && entry@ == bad,
            Err(None) => r matches Err(RoomListError::NoRooms),
        },
{
    let pieces = split_at_commas(raw);
    let ghost all = string_views(pieces@);
    let mut rooms: Vec<String> = Vec::new();
    let mut seen = StringHashSet::new();
    let mut i: usize = 0;
    proof {
        assert(all.take(0) =~= Seq::<Seq<char>>::empty());
        assert(string_views(rooms@) =~= Seq::<Seq<char>>::empty());
    }
    while i < pieces.len()
        invariant
            all == string_views(pieces@),
            all == split_commas(raw@),
            i <= pieces.len(),
            gather_rooms(all.take(i as int)) == Ok::<Seq<Seq<char>>, Seq<char>>(string_views(rooms@)),
            forall|x: Seq<char>| seen@.contains(x) <==> string_views(rooms@).contains(x),
        decreases pieces.len() - i,
    {
        let t = trim_str(pieces[i].as_str());
        let ghost next = all.take(i + 1);
        proof {
            assert(next.drop_last() =~= all.take(i as int));
            assert(next.last() == pieces@[i as int]@);
            assert(gather_rooms(next) == add_room_piece(gather_rooms(all.take(i as int)), pieces@[i as int]@));
            assert(t@ == trimmed(pieces@[i as int]@));
        }
        if t.unicode_len() != 0 {
            match parse_room_id(t) {
                Err(error) => {
                    proof {
                        assert(gather_rooms(next) == Err::<Seq<Seq<char>>, Seq<char>>(t@));
                        lemma_gather_error_sticks(next, all);
                        assert(gather_rooms(all) == Err::<Seq<Seq<char>>, Seq<char>>(t@));
                        assert(all == split_commas(raw@));
                        assert(room_list_result(raw@) == Err::<Seq<Seq<char>>, Option<Seq<char>>>(Some(t@)));
                    }
                    let bad = String::from_str(t);
                    return Err(RoomListError::InvalidRoomId { entry: bad, error });
                },
                Ok(id) => {
                    if seen.insert(id.clone()) {
                        let ghost before = rooms@;
                        rooms.push(id);
                        proof {
                            assert(string_views(rooms@) =~= string_views(before).push(id@));
                            assert forall|x: Seq<char>| seen@.contains(x) <==> string_views(rooms@).contains(x) by {
                                if x == id@ {
                                    assert(string_views(rooms@)[string_views(before).len() as int] == x);
                                } else if string_views(before).contains(x) {
                                    let k = choose|k: int| 0 <= k < string_views(before).len() && string_views(before)[k] == x;
                                    assert(string_views(rooms@)[k] == x);
                                } else if string_views(rooms@).contains(x) {
                                    let k = choose|k: int| 0 <= k < string_views(rooms@).len() && string_views(rooms@)[k] == x;
                                    assert(string_views(before)[k] == x);
                                }
                            }
                        }
                    }
                },
            }
        }
        i = i + 1;
    }
    proof {
        assert(all.take(pieces@.len() as int) =~= all);
    }
    if rooms.len() == 0 {
        Err(RoomListError::NoRooms)
    } else {
        Ok(rooms)
    }
}

} // verus!
