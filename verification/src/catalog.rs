//! Room catalog normalization, performed once at startup.
//!
//! The fetched room list is brought into presentation order: a stable
//! sort ascending by display name (case-sensitive, codepoint order),
//! after which the one-to-one conversations are moved, keeping their
//! relative order, behind the remaining rooms.

use vstd::prelude::*;

use crate::model::Room;
use crate::order::lex_lt;
use crate::order::lemma_lex_lt_irreflexive;
use crate::order::lemma_lex_lt_transitive;
use crate::order::str_lt;
use vstd::seq_lib::group_to_multiset_ensures;
use vstd::seq_lib::lemma_multiset_commutative;

verus! {

/// Stable insertion of `room` into `sorted`: it goes in front of the
/// first room whose name is strictly greater, after all others.
pub open spec fn insert_by_name(room: Room, sorted: Seq<Room>) -> Seq<Room>
    decreases sorted.len(),
{
    if sorted.len() == 0 {
        seq![room]
    } else if lex_lt(room.name@, sorted[0].name@) {
        seq![room] + sorted
    } else {
        seq![sorted[0]] + insert_by_name(room, sorted.drop_first())
    }
}

/// The index at which `insert_by_name` places `room`.
pub open spec fn insert_pos(room: Room, sorted: Seq<Room>) -> int
    decreases sorted.len(),
{
    if sorted.len() == 0 {
        0
    } else if lex_lt(room.name@, sorted[0].name@) {
        0
    } else {
        1 + insert_pos(room, sorted.drop_first())
    }
}

/// Stable insertion sort by room name, taking the input left to right.
pub open spec fn sort_by_name(rooms: Seq<Room>) -> Seq<Room>
    decreases rooms.len(),
{
    if rooms.len() == 0 {
        rooms
    } else {
        insert_by_name(rooms.last(), sort_by_name(rooms.drop_last()))
    }
}

/// The rooms that are not one-to-one conversations, in their order.
pub open spec fn group_rooms(rooms: Seq<Room>) -> Seq<Room> {
    rooms.filter(|r: Room| !r.one_to_one)
}

/// The one-to-one conversations, in their order.
pub open spec fn one_to_one_rooms(rooms: Seq<Room>) -> Seq<Room> {
    rooms.filter(|r: Room| r.one_to_one)
}

/// The normalized catalog: sorted by name, one-to-one conversations
/// moved to the end.
pub open spec fn normalize_spec(rooms: Seq<Room>) -> Seq<Room> {
    group_rooms(sort_by_name(rooms)) + one_to_one_rooms(sort_by_name(rooms))
}

/// Nondecreasing by name: no later room's name comes before an earlier
/// room's name.
pub open spec fn sorted_by_name(rooms: Seq<Room>) -> bool {
    forall|i: int, j: int|
        0 <= i < j < rooms.len() ==> !lex_lt(rooms[j].name@, rooms[i].name@)
}

/// `insert_by_name` inserts at `insert_pos`: everything before that
/// index is not greater than the room, the element at it (if any) is
/// strictly greater.
proof fn lemma_insert_by_name_at(room: Room, sorted: Seq<Room>)
    ensures
        0 <= insert_pos(room, sorted) <= sorted.len(),
        forall|k: int|
            0 <= k < insert_pos(room, sorted) ==> !lex_lt(room.name@, sorted[k].name@),
        insert_pos(room, sorted) < sorted.len() ==> lex_lt(
            room.name@,
            sorted[insert_pos(room, sorted)].name@,
        ),
        insert_by_name(room, sorted) =~= sorted.insert(insert_pos(room, sorted), room),
    decreases sorted.len(),
{
    let j = insert_pos(room, sorted);
    if sorted.len() == 0 {
        assert(insert_by_name(room, sorted) =~= sorted.insert(0, room));
    } else if lex_lt(room.name@, sorted[0].name@) {
        assert(seq![room] + sorted =~= sorted.insert(0, room));
    } else {
        lemma_insert_by_name_at(room, sorted.drop_first());
        let tail = sorted.drop_first();
        let j1 = insert_pos(room, tail);
        tail.insert_ensures(j1, room);
        sorted.insert_ensures(j1 + 1, room);
        assert(seq![sorted[0]] + tail.insert(j1, room) =~= sorted.insert(j1 + 1, room));
        assert(seq![sorted[0]] + insert_by_name(room, tail) =~= seq![sorted[0]] + tail.insert(
            j1,
            room,
        ));
        assert forall|k: int| 0 <= k < j implies !lex_lt(room.name@, sorted[k].name@) by {
            if k > 0 {
                assert(sorted[k] == tail[k - 1]);
            }
        }
    }
}

/// Inserting into a sorted sequence keeps it sorted.
proof fn lemma_insert_by_name_sorted(room: Room, sorted: Seq<Room>)
    requires
        sorted_by_name(sorted),
    ensures
        sorted_by_name(insert_by_name(room, sorted)),
{
    lemma_insert_by_name_at(room, sorted);
    let j = insert_pos(room, sorted);
    let out = sorted.insert(j, room);
    sorted.insert_ensures(j, room);
    assert forall|x: int, y: int|
        0 <= x < y < out.len() implies !lex_lt(out[y].name@, out[x].name@) by {
        if y < j {
            // both taken from the sorted prefix
        } else if x == j {
            // out[x] is the room, out[y] is sorted[y - 1] with y - 1 >= j
            if lex_lt(sorted[y - 1].name@, room.name@) {
                lemma_lex_lt_transitive(sorted[y - 1].name@, room.name@, sorted[j].name@);
                if y - 1 == j {
                    lemma_lex_lt_irreflexive(sorted[j].name@);
                }
                assert(false);
            }
        } else if y == j {
            // out[y] is the room, out[x] is sorted[x] with x < j
        } else if x < j {
            // out[x] == sorted[x], out[y] == sorted[y - 1], x < y - 1
        } else {
            // both behind the insertion point
        }
    }
}

/// The sort leaves the sequence sorted by name.
pub proof fn lemma_sort_by_name_sorted(rooms: Seq<Room>)
    ensures
        sorted_by_name(sort_by_name(rooms)),
    decreases rooms.len(),
{
    if rooms.len() > 0 {
        lemma_sort_by_name_sorted(rooms.drop_last());
        lemma_insert_by_name_sorted(rooms.last(), sort_by_name(rooms.drop_last()));
    }
}

/// The sort is a permutation: it keeps every room, with multiplicity.
pub proof fn lemma_sort_by_name_permutes(rooms: Seq<Room>)
    ensures
        sort_by_name(rooms).to_multiset() == rooms.to_multiset(),
    decreases rooms.len(),
{
    broadcast use group_to_multiset_ensures;

    if rooms.len() > 0 {
        lemma_sort_by_name_permutes(rooms.drop_last());
        let last = rooms.last();
        let st = sort_by_name(rooms.drop_last());
        lemma_insert_by_name_at(last, st);
        let j = insert_pos(last, st);
        let front = st.subrange(0, j);
        let back = st.subrange(j, st.len() as int);
        lemma_multiset_commutative(front.push(last), back);
        lemma_multiset_commutative(front, back);
        assert(front + back =~= st);
        assert(st.insert(j, last).to_multiset() =~= st.to_multiset().insert(last));
        assert(rooms.drop_last().push(last) =~= rooms);
        assert(sort_by_name(rooms).to_multiset() =~= rooms.to_multiset());
    }
}

/// Every element of a filtered sequence occurs in the source.
proof fn lemma_filter_in_source<A>(s: Seq<A>, pred: spec_fn(A) -> bool)
    ensures
        forall|k: int|
            0 <= k < s.filter(pred).len() ==> s.contains(#[trigger] s.filter(pred)[k]),
    decreases s.len(),
{
    reveal(Seq::filter);
    if s.len() > 0 {
        lemma_filter_in_source(s.drop_last(), pred);
        let sub = s.drop_last().filter(pred);
        assert forall|k: int|
            0 <= k < s.filter(pred).len() implies s.contains(#[trigger] s.filter(pred)[k]) by {
            let x = s.filter(pred)[k];
            if k < sub.len() {
                assert(s.drop_last().contains(sub[k]));
                let m = choose|m: int| 0 <= m < s.drop_last().len() && s.drop_last()[m] == x;
                assert(s[m] == x);
            } else {
                assert(x == s.last());
            }
        }
    }
}

/// Filtering a sequence that is sorted by name leaves it sorted.
proof fn lemma_filter_sorted(s: Seq<Room>, pred: spec_fn(Room) -> bool)
    requires
        sorted_by_name(s),
    ensures
        sorted_by_name(s.filter(pred)),
    decreases s.len(),
{
    reveal(Seq::filter);
    if s.len() > 0 {
        assert(sorted_by_name(s.drop_last()));
        lemma_filter_sorted(s.drop_last(), pred);
        let sub = s.drop_last().filter(pred);
        if pred(s.last()) {
            lemma_filter_in_source(s.drop_last(), pred);
            assert forall|k: int|
                0 <= k < sub.len() implies !lex_lt(s.last().name@, sub[k].name@) by {
                let x = sub[k];
                assert(s.drop_last().contains(x));
                let m = choose|m: int| 0 <= m < s.drop_last().len() && s.drop_last()[m] == x;
                assert(s[m] == x);
                assert(!lex_lt(s[s.len() - 1].name@, s[m].name@));
            }
        }
    }
}

/// The two filtered halves together keep every room, with multiplicity.
proof fn lemma_partition_multiset(s: Seq<Room>)
    ensures
        group_rooms(s).to_multiset().add(one_to_one_rooms(s).to_multiset()) == s.to_multiset(),
    decreases s.len(),
{
    broadcast use group_to_multiset_ensures;

    reveal(Seq::filter);
    if s.len() > 0 {
        lemma_partition_multiset(s.drop_last());
        assert(s.drop_last().push(s.last()) =~= s);
        assert(group_rooms(s).to_multiset().add(one_to_one_rooms(s).to_multiset()) =~= s
            .to_multiset());
    } else {
        assert(group_rooms(s).to_multiset().add(one_to_one_rooms(s).to_multiset()) =~= s
            .to_multiset());
    }
}

/// The rooms carrying exactly the given name, in their order.
pub open spec fn rooms_named(s: Seq<Room>, name: Seq<char>) -> Seq<Room> {
    s.filter(|r: Room| r.name@ == name)
}

/// A sequence without the name filters down to nothing.
proof fn lemma_rooms_named_empty(s: Seq<Room>, name: Seq<char>)
    requires
        forall|k: int| 0 <= k < s.len() ==> (#[trigger] s[k]).name@ != name,
    ensures
        rooms_named(s, name) == Seq::<Room>::empty(),
    decreases s.len(),
{
    reveal(Seq::filter);
    if s.len() > 0 {
        assert(forall|k: int|
            0 <= k < s.drop_last().len() ==> (#[trigger] s.drop_last()[k]).name@ != name);
        lemma_rooms_named_empty(s.drop_last(), name);
    }
    assert(rooms_named(s, name) =~= Seq::<Room>::empty());
}

/// Inserting a room into a sorted sequence puts it behind every room
/// that already carries its name: restricted to any one name, the
/// insertion appends at most the inserted room.
proof fn lemma_insert_by_name_stable(room: Room, sorted: Seq<Room>, name: Seq<char>)
    requires
        sorted_by_name(sorted),
    ensures
        room.name@ == name ==> rooms_named(insert_by_name(room, sorted), name) == rooms_named(
            sorted,
            name,
        ).push(room),
        room.name@ != name ==> rooms_named(insert_by_name(room, sorted), name) == rooms_named(
            sorted,
            name,
        ),
{
    broadcast use vstd::seq_lib::group_seq_lib_default;

    reveal(Seq::filter);
    lemma_insert_by_name_at(room, sorted);
    let j = insert_pos(room, sorted);
    let front = sorted.subrange(0, j);
    let back = sorted.subrange(j, sorted.len() as int);
    assert(front + back =~= sorted);
    assert(insert_by_name(room, sorted) == front.push(room) + back);
    assert(front.push(room).drop_last() =~= front);
    if room.name@ == name {
        // no room behind the insertion point carries the name: each is
        // strictly greater by name than the inserted room
        assert forall|k: int| 0 <= k < back.len() implies (#[trigger] back[k]).name@ != name by {
            if back[k].name@ == name {
                assert(back[k] == sorted[j + k]);
                assert(lex_lt(sorted[j + k].name@, sorted[j].name@));
                if k == 0 {
                    lemma_lex_lt_irreflexive(sorted[j].name@);
                }
                assert(false);
            }
        }
        lemma_rooms_named_empty(back, name);
        assert(rooms_named(insert_by_name(room, sorted), name) =~= rooms_named(
            sorted,
            name,
        ).push(room));
    } else {
        assert(rooms_named(insert_by_name(room, sorted), name) =~= rooms_named(sorted, name));
    }
}

/// Stability of the sort: for any one name, the rooms carrying it come
/// out of the sort in exactly the order they went in.
pub proof fn lemma_sort_by_name_stable(rooms: Seq<Room>, name: Seq<char>)
    ensures
        rooms_named(sort_by_name(rooms), name) == rooms_named(rooms, name),
    decreases rooms.len(),
{
    reveal(Seq::filter);
    if rooms.len() > 0 {
        lemma_sort_by_name_stable(rooms.drop_last(), name);
        lemma_sort_by_name_sorted(rooms.drop_last());
        lemma_insert_by_name_stable(rooms.last(), sort_by_name(rooms.drop_last()), name);
    }
}

/// Where the one-to-one suffix of the normalized catalog begins.
pub open spec fn group_count(rooms: Seq<Room>) -> int {
    group_rooms(sort_by_name(rooms)).len() as int
}

/// Partition shape of the normalized catalog: the prefix holds exactly
/// the rooms that are not one-to-one conversations, sorted ascending by
/// name; the suffix holds exactly the one-to-one conversations, also
/// sorted ascending by name (their order after the sort, not the fetch
/// order); and every input room appears exactly once, counted with
/// multiplicity.
pub proof fn lemma_normalize_partition(rooms: Seq<Room>)
    ensures
        0 <= group_count(rooms) <= normalize_spec(rooms).len(),
        normalize_spec(rooms).len() == rooms.len(),
        forall|i: int|
            0 <= i < group_count(rooms) ==> !(#[trigger] normalize_spec(rooms)[i]).one_to_one,
        forall|i: int|
            group_count(rooms) <= i < normalize_spec(rooms).len() ==> (
            #[trigger] normalize_spec(rooms)[i]).one_to_one,
        sorted_by_name(normalize_spec(rooms).take(group_count(rooms))),
        sorted_by_name(normalize_spec(rooms).skip(group_count(rooms))),
        normalize_spec(rooms).to_multiset() == rooms.to_multiset(),
{
    broadcast use group_to_multiset_ensures;
    broadcast use vstd::seq_lib::group_filter_ensures;

    let st = sort_by_name(rooms);
    let gs = group_rooms(st);
    let os = one_to_one_rooms(st);
    let out = normalize_spec(rooms);
    lemma_sort_by_name_sorted(rooms);
    lemma_sort_by_name_permutes(rooms);
    lemma_filter_sorted(st, |r: Room| !r.one_to_one);
    lemma_filter_sorted(st, |r: Room| r.one_to_one);
    lemma_partition_multiset(st);
    lemma_multiset_commutative(gs, os);
    assert(out.take(gs.len() as int) =~= gs);
    assert(out.skip(gs.len() as int) =~= os);
    assert(out.to_multiset().len() == rooms.to_multiset().len());
    assert(out.len() == rooms.len());
}

/// Brings the fetched room list into presentation order: a stable sort
/// ascending by display name, then the one-to-one conversations moved,
/// keeping their relative order, behind the remaining rooms.
pub fn normalize(rooms: Vec<Room>) -> (out: Vec<Room>)
    ensures
        out@ == normalize_spec(rooms@),
{
    let ghost orig = rooms@;
    let mut rooms = rooms;
    let mut sorted: Vec<Room> = Vec::new();
    let ghost mut done: int = 0;
    proof {
        assert(orig.take(0) =~= Seq::<Room>::empty());
        assert(rooms@ =~= orig.skip(0));
    }
    while rooms.len() > 0
        invariant
            0 <= done <= orig.len(),
            rooms@ == orig.skip(done),
            sorted@ == sort_by_name(orig.take(done)),
        decreases rooms@.len(),
    {
        let room = rooms.remove(0);
        proof {
            assert(orig.skip(done).remove(0) =~= orig.skip(done + 1));
            assert(room == orig[done]);
        }
        let ghost prev = sorted@;
        let mut j: usize = 0;
        let mut stop: bool = false;
        while j < sorted.len() && !stop
            invariant
                sorted@ == prev,
                j <= prev.len(),
                forall|k: int| 0 <= k < j ==> !lex_lt(room.name@, prev[k].name@),
                stop ==> j < prev.len() && lex_lt(room.name@, prev[j as int].name@),
            decreases prev.len() - j + (if stop { 0int } else { 1int }),
        {
            if str_lt(room.name.as_str(), sorted[j].name.as_str()) {
                stop = true;
            } else {
                j = j + 1;
            }
        }
        proof {
            lemma_insert_by_name_at(room, prev);
            let jp = insert_pos(room, prev);
            if jp < j {
                assert(lex_lt(room.name@, prev[jp].name@));
                assert(false);
            }
            if j < jp {
                assert(!lex_lt(room.name@, prev[j as int].name@));
                assert(false);
            }
        }
        sorted.insert(j, room);
        proof {
            done = done + 1;
            assert(orig.take(done).drop_last() =~= orig.take(done - 1));
            assert(orig.take(done).last() == orig[done - 1]);
        }
    }
    proof {
        assert(orig.take(orig.len() as int) =~= orig);
    }
    let ghost srt = sorted@;
    let mut groups: Vec<Room> = Vec::new();
    let mut directs: Vec<Room> = Vec::new();
    let ghost mut taken: int = 0;
    proof {
        reveal(Seq::filter);
        assert(srt.take(0) =~= Seq::<Room>::empty());
    }
    while sorted.len() > 0
        invariant
            0 <= taken <= srt.len(),
            sorted@ == srt.skip(taken),
            groups@ == group_rooms(srt.take(taken)),
            directs@ == one_to_one_rooms(srt.take(taken)),
        decreases sorted@.len(),
    {
        let room = sorted.remove(0);
        proof {
            reveal(Seq::filter);
            assert(srt.skip(taken).remove(0) =~= srt.skip(taken + 1));
            assert(room == srt[taken]);
            assert(srt.take(taken + 1).drop_last() =~= srt.take(taken));
            assert(srt.take(taken + 1).last() == srt[taken]);
        }
        if room.one_to_one {
            directs.push(room);
        } else {
            groups.push(room);
        }
        proof {
            taken = taken + 1;
        }
    }
    let mut out = groups;
    out.append(&mut directs);
    proof {
        assert(srt.take(srt.len() as int) =~= srt);
    }
    out
}

} // verus!
