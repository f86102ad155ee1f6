//! Crowds: where enough people stand in one square of the world that drawing
//! them all tells the player nothing, and which of those carry a badge.
//!
//! People are bucketed into fixed cells. A cell holding at least
//! `CROWD_KEEP` people is a crowd; crowds come largest first, and crowds of the
//! same size by cell, so equal-sized crowds keep a stable order.
use std::collections::{HashMap, HashSet};
use vstd::prelude::*;

use crate::world::PLAYER_TAG;

verus! {

broadcast use vstd::std_specs::hash::group_hash_axioms;

/// How many people have to share a cell before it is worth collapsing.
pub const CROWD_MIN: usize = 6;

/// How far it has to thin out before the badge goes away again.
pub const CROWD_KEEP: usize = 4;

/// Whether cell `a` comes before cell `b`: by the first coordinate, then the
/// second.
pub open spec fn cell_before(a: (i32, i32), b: (i32, i32)) -> bool {
    a.0 < b.0 || (a.0 == b.0 && a.1 < b.1)
}

/// Whether a crowd of `a_len` in cell `a` is listed ahead of one of `b_len` in
/// cell `b`: the larger first, then by cell.
pub open spec fn ahead(a_len: int, a: (i32, i32), b_len: int, b: (i32, i32)) -> bool {
    a_len > b_len || (a_len == b_len && cell_before(a, b))
}

/// Entry `i`, among the first `n`, is a person standing in `cell`.
pub open spec fn counted(entries: Seq<((i32, i32), u16)>, n: int, i: int, cell: (i32, i32)) -> bool {
    0 <= i < n && i < entries.len() && entries[i].1 == PLAYER_TAG && entries[i].0 == cell
}

/// `members` lists, in increasing order, exactly the people among the first
/// `n` entries who stand in `cell`.
pub open spec fn lists_people_below(
    entries: Seq<((i32, i32), u16)>,
    n: int,
    cell: (i32, i32),
    members: Seq<usize>,
) -> bool {
    &&& forall|a: int, b: int| 0 <= a < b < members.len() ==> members[a] < members[b]
    &&& forall|a: int| 0 <= a < members.len() ==> counted(entries, n, #[trigger] members[a] as int, cell)
    &&& forall|i: int| #[trigger] counted(entries, n, i, cell) ==> members.contains(i as usize)
}

/// `members` lists, in increasing order, exactly the people in `entries` who
/// stand in `cell`.
pub open spec fn lists_people_in(entries: Seq<((i32, i32), u16)>, cell: (i32, i32), members: Seq<usize>) -> bool {
    lists_people_below(entries, entries.len() as int, cell, members)
}

/// A cell holding at least `CROWD_KEEP` people, and which entries they are.
pub struct Crowd {
    pub cell: (i32, i32),
    /// Positions in the list of entries, in increasing order.
    pub members: Vec<usize>,
}

/// Two lists of the same people in the same cell have the same length.
proof fn lemma_one_count_per_cell(
    entries: Seq<((i32, i32), u16)>,
    n: int,
    cell: (i32, i32),
    s1: Seq<usize>,
    s2: Seq<usize>,
)
    requires
        lists_people_below(entries, n, cell, s1),
        lists_people_below(entries, n, cell, s2),
    ensures
        s1.len() == s2.len(),
{
    assert(s1.no_duplicates()) by {
        assert forall|a: int, b: int| 0 <= a < s1.len() && 0 <= b < s1.len() && a != b implies s1[a]
            != s1[b] by {
            if a < b {
                assert(s1[a] < s1[b]);
            } else {
                assert(s1[b] < s1[a]);
            }
        }
    }
    assert(s2.no_duplicates()) by {
        assert forall|a: int, b: int| 0 <= a < s2.len() && 0 <= b < s2.len() && a != b implies s2[a]
            != s2[b] by {
            if a < b {
                assert(s2[a] < s2[b]);
            } else {
                assert(s2[b] < s2[a]);
            }
        }
    }
    assert(s1.to_set() =~= s2.to_set()) by {
        assert forall|x: usize| s1.to_set().contains(x) implies s2.to_set().contains(x) by {
            let a = choose|a: int| 0 <= a < s1.len() && s1[a] == x;
            assert(counted(entries, n, s1[a] as int, cell));
            assert(s2.contains(x));
        }
        assert forall|x: usize| s2.to_set().contains(x) implies s1.to_set().contains(x) by {
            let a = choose|a: int| 0 <= a < s2.len() && s2[a] == x;
            assert(counted(entries, n, s2[a] as int, cell));
            assert(s1.contains(x));
        }
    }
    s1.unique_seq_to_set();
    s2.unique_seq_to_set();
}

/// `r` is the crowds among `entries`: each lists exactly the people standing
/// in its cell, at least `CROWD_KEEP` of them; they come largest first and
/// then by cell; and every cell holding at least `CROWD_KEEP` people has one.
pub open spec fn is_crowds_of(entries: Seq<((i32, i32), u16)>, r: Seq<Crowd>) -> bool {
    &&& forall|k: int|
        0 <= k < r.len() ==> lists_people_in(entries, #[trigger] r[k].cell, r[k].members@)
            && r[k].members@.len() >= CROWD_KEEP
    &&& forall|a: int, b: int|
        0 <= a < b < r.len() ==> ahead(
            r[a].members@.len() as int,
            r[a].cell,
            r[b].members@.len() as int,
            r[b].cell,
        )
    &&& forall|c: (i32, i32), s: Seq<usize>|
        lists_people_in(entries, c, s) && s.len() >= CROWD_KEEP ==> exists|k: int|
            0 <= k < r.len() && #[trigger] r[k].cell == c
}

/// Two increasing lists holding the same values are the same list.
proof fn lemma_increasing_lists_agree(s1: Seq<usize>, s2: Seq<usize>)
    requires
        forall|a: int, b: int| 0 <= a < b < s1.len() ==> s1[a] < s1[b],
        forall|a: int, b: int| 0 <= a < b < s2.len() ==> s2[a] < s2[b],
        forall|x: usize| s1.contains(x) <==> s2.contains(x),
    ensures
        s1 == s2,
    decreases s1.len(),
{
    if s1.len() == 0 {
        if s2.len() > 0 {
            assert(s2.contains(s2[0]));
        }
        assert(s1 =~= s2);
    } else {
        assert(s1.contains(s1[0]));
        assert(s2.len() > 0);
        assert(s2.contains(s2[0]));
        let i = choose|i: int| 0 <= i < s1.len() && s1[i] == s2[0];
        let j = choose|j: int| 0 <= j < s2.len() && s2[j] == s1[0];
        assert(s1[0] == s2[0]) by {
            if i > 0 {
                assert(s1[0] < s1[i]);
            }
            if j > 0 {
                assert(s2[0] < s2[j]);
            }
        }
        let (t1, t2) = (s1.drop_first(), s2.drop_first());
        assert forall|x: usize| t1.contains(x) <==> t2.contains(x) by {
            if t1.contains(x) {
                let a = choose|a: int| 0 <= a < t1.len() && t1[a] == x;
                assert(s1[a + 1] == x && s1[0] < s1[a + 1]);
                assert(s1.contains(x));
                let b = choose|b: int| 0 <= b < s2.len() && s2[b] == x;
                assert(b != 0);
                assert(t2[b - 1] == x);
            }
            if t2.contains(x) {
                let a = choose|a: int| 0 <= a < t2.len() && t2[a] == x;
                assert(s2[a + 1] == x && s2[0] < s2[a + 1]);
                assert(s2.contains(x));
                let b = choose|b: int| 0 <= b < s1.len() && s1[b] == x;
                assert(b != 0);
                assert(t1[b - 1] == x);
            }
        }
        lemma_increasing_lists_agree(t1, t2);
        assert(s1 =~= s2) by {
            assert forall|k: int| 0 <= k < s1.len() implies s1[k] == s2[k] by {
                if k > 0 {
                    assert(s1[k] == t1[k - 1] && s2[k] == t2[k - 1]);
                }
            }
        }
    }
}

/// A crowd's size and cell, by which crowds are ordered.
pub open spec fn crowd_key(c: Crowd) -> (int, (i32, i32)) {
    (c.members@.len() as int, c.cell)
}

/// Two lists, each strictly in `ahead` order, holding the same keys, are the
/// same list.
proof fn lemma_ordered_keys_agree(k1: Seq<(int, (i32, i32))>, k2: Seq<(int, (i32, i32))>)
    requires
        forall|a: int, b: int| 0 <= a < b < k1.len() ==> ahead(k1[a].0, k1[a].1, k1[b].0, k1[b].1),
        forall|a: int, b: int| 0 <= a < b < k2.len() ==> ahead(k2[a].0, k2[a].1, k2[b].0, k2[b].1),
        forall|x: (int, (i32, i32))| k1.contains(x) <==> k2.contains(x),
    ensures
        k1 == k2,
    decreases k1.len(),
{
    if k1.len() == 0 {
        if k2.len() > 0 {
            assert(k2.contains(k2[0]));
        }
        assert(k1 =~= k2);
    } else {
        assert(k1.contains(k1[0]));
        assert(k2.len() > 0);
        assert(k2.contains(k2[0]));
        let i = choose|i: int| 0 <= i < k1.len() && k1[i] == k2[0];
        let j = choose|j: int| 0 <= j < k2.len() && k2[j] == k1[0];
        assert(k1[0] == k2[0]) by {
            if i > 0 && j > 0 {
                assert(ahead(k1[0].0, k1[0].1, k1[i].0, k1[i].1));
                assert(ahead(k2[0].0, k2[0].1, k2[j].0, k2[j].1));
            }
        }
        let (t1, t2) = (k1.drop_first(), k2.drop_first());
        assert forall|x: (int, (i32, i32))| t1.contains(x) <==> t2.contains(x) by {
            if t1.contains(x) {
                let a = choose|a: int| 0 <= a < t1.len() && t1[a] == x;
                assert(k1[a + 1] == x && ahead(k1[0].0, k1[0].1, k1[a + 1].0, k1[a + 1].1));
                assert(k1.contains(x));
                let b = choose|b: int| 0 <= b < k2.len() && k2[b] == x;
                assert(b != 0);
                assert(t2[b - 1] == x);
            }
            if t2.contains(x) {
                let a = choose|a: int| 0 <= a < t2.len() && t2[a] == x;
                assert(k2[a + 1] == x && ahead(k2[0].0, k2[0].1, k2[a + 1].0, k2[a + 1].1));
                assert(k2.contains(x));
                let b = choose|b: int| 0 <= b < k1.len() && k1[b] == x;
                assert(b != 0);
                assert(t1[b - 1] == x);
            }
        }
        lemma_ordered_keys_agree(t1, t2);
        assert(k1 =~= k2) by {
            assert forall|k: int| 0 <= k < k1.len() implies k1[k] == k2[k] by {
                if k > 0 {
                    assert(k1[k] == t1[k - 1] && k2[k] == t2[k - 1]);
                }
            }
        }
    }
}

/// The crowds a list of entries holds are fixed by it: any two lists of
/// crowds of the same entries agree crowd for crowd, cell and members, in the
/// same order. Nothing about how the entries were walked can reorder them,
/// so equal-sized crowds keep a stable order from one frame to the next.
pub proof fn lemma_crowds_are_determined(entries: Seq<((i32, i32), u16)>, r1: Seq<Crowd>, r2: Seq<Crowd>)
    requires
        is_crowds_of(entries, r1),
        is_crowds_of(entries, r2),
    ensures
        r1.len() == r2.len(),
        forall|k: int| 0 <= k < r1.len() ==> r1[k].cell == r2[k].cell && r1[k].members@ == r2[k].members@,
{
    let k1 = r1.map_values(|c: Crowd| crowd_key(c));
    let k2 = r2.map_values(|c: Crowd| crowd_key(c));
    // A cell's crowd lists the same people whichever list it is found in.
    assert forall|a: int, b: int| 0 <= a < r1.len() && 0 <= b < r2.len() && r1[a].cell == r2[b].cell implies r1[a].members@
        == r2[b].members@ by {
        let c = r1[a].cell;
        assert(lists_people_in(entries, r1[a].cell, r1[a].members@));
        assert(lists_people_in(entries, r2[b].cell, r2[b].members@));
        assert forall|x: usize| r1[a].members@.contains(x) <==> r2[b].members@.contains(x) by {
            if r1[a].members@.contains(x) {
                let i = choose|i: int| 0 <= i < r1[a].members@.len() && r1[a].members@[i] == x;
                assert(counted(entries, entries.len() as int, r1[a].members@[i] as int, c));
            }
            if r2[b].members@.contains(x) {
                let i = choose|i: int| 0 <= i < r2[b].members@.len() && r2[b].members@[i] == x;
                assert(counted(entries, entries.len() as int, r2[b].members@[i] as int, c));
            }
        }
        lemma_increasing_lists_agree(r1[a].members@, r2[b].members@);
    }
    assert forall|x: (int, (i32, i32))| k1.contains(x) <==> k2.contains(x) by {
        if k1.contains(x) {
            let a = choose|a: int| 0 <= a < k1.len() && k1[a] == x;
            assert(lists_people_in(entries, r1[a].cell, r1[a].members@) && r1[a].members@.len() >= CROWD_KEEP);
            let b = choose|b: int| 0 <= b < r2.len() && #[trigger] r2[b].cell == r1[a].cell;
            assert(k2[b] == x);
        }
        if k2.contains(x) {
            let b = choose|b: int| 0 <= b < k2.len() && k2[b] == x;
            assert(lists_people_in(entries, r2[b].cell, r2[b].members@) && r2[b].members@.len() >= CROWD_KEEP);
            let a = choose|a: int| 0 <= a < r1.len() && #[trigger] r1[a].cell == r2[b].cell;
            assert(k1[a] == x);
        }
    }
    assert forall|a: int, b: int| 0 <= a < b < k1.len() implies ahead(k1[a].0, k1[a].1, k1[b].0, k1[b].1) by {
        assert(ahead(r1[a].members@.len() as int, r1[a].cell, r1[b].members@.len() as int, r1[b].cell));
    }
    assert forall|a: int, b: int| 0 <= a < b < k2.len() implies ahead(k2[a].0, k2[a].1, k2[b].0, k2[b].1) by {
        assert(ahead(r2[a].members@.len() as int, r2[a].cell, r2[b].members@.len() as int, r2[b].cell));
    }
    lemma_ordered_keys_agree(k1, k2);
    assert forall|k: int| 0 <= k < r1.len() implies r1[k].cell == r2[k].cell && r1[k].members@ == r2[k].members@ by {
        assert(k1[k] == k2[k]);
    }
}

/// Whether two cells are the same, written out field by field.
fn same_cell(a: (i32, i32), b: (i32, i32)) -> (r: bool)
    ensures
        r == (a == b),
{
    a.0 == b.0 && a.1 == b.1
}

/// Whether a crowd of `a_len` in cell `a` goes ahead of one of `b_len` in `b`.
fn goes_ahead(a_len: usize, a: (i32, i32), b_len: usize, b: (i32, i32)) -> (r: bool)
    ensures
        r == ahead(a_len as int, a, b_len as int, b),
{
    a_len > b_len || (a_len == b_len && (a.0 < b.0 || (a.0 == b.0 && a.1 < b.1)))
}

/// Sorts people into cells, one group per occupied cell, each listing its
/// people in the order they were given.
fn group_by_cell(entries: &[((i32, i32), u16)]) -> (r: (Vec<(i32, i32)>, Vec<Vec<usize>>))
    ensures
        r.0@.len() == r.1@.len(),
        forall|g: int, h: int| 0 <= g < h < r.0@.len() ==> r.0@[g] != r.0@[h],
        forall|g: int|
            0 <= g < r.0@.len() ==> lists_people_in(entries@, #[trigger] r.0@[g], r.1@[g]@),
        forall|i: int|
            0 <= i < entries@.len() && entries@[i].1 == PLAYER_TAG ==> exists|g: int|
                0 <= g < r.0@.len() && #[trigger] r.0@[g] == entries@[i].0,
{
    let mut cells: Vec<(i32, i32)> = Vec::new();
    let mut members: Vec<Vec<usize>> = Vec::new();
    // Where each occupied cell's group sits in `cells`, by the cell's key.
    let mut slots: HashMap<u64, usize> = HashMap::new();
    let mut i: usize = 0;
    while i < entries.len()
        invariant
            i <= entries@.len(),
            cells@.len() == members@.len(),
            forall|g: int|
                0 <= g < cells@.len() ==> #[trigger] slots@.contains_key(cell_key(cells@[g]) as u64)
                    && slots@[cell_key(cells@[g]) as u64] == g,
            forall|k: u64|
                #[trigger] slots@.contains_key(k) ==> slots@[k] < cells@.len() && cell_key(
                    cells@[slots@[k] as int],
                ) == k,
            forall|g: int, h: int| 0 <= g < h < cells@.len() ==> cells@[g] != cells@[h],
            forall|g: int|
                0 <= g < cells@.len() ==> lists_people_below(
                    entries@,
                    i as int,
                    #[trigger] cells@[g],
                    members@[g]@,
                ),
            forall|g: int| 0 <= g < cells@.len() ==> #[trigger] members@[g]@.len() > 0,
            forall|j: int|
                0 <= j < i && entries@[j].1 == PLAYER_TAG ==> exists|g: int|
                    0 <= g < cells@.len() && #[trigger] cells@[g] == entries@[j].0,
        decreases entries@.len() - i,
    {
        let (cell, tag) = entries[i];
        let ghost old_cells = cells@;
        let ghost mut slot: int = 0;
        if tag == PLAYER_TAG {
            let key = key_of(cell);
            let g: usize = match slots.get(&key) {
                Some(at) => *at,
                None => cells.len(),
            };
            proof {
                if g < cells@.len() {
                    lemma_cell_keys_are_distinct(cells@[g as int], cell);
                }
                assert forall|h: int| 0 <= h < g implies cells@[h] != cell by {
                    if cells@[h] == cell {
                        assert(slots@.contains_key(cell_key(cells@[h]) as u64));
                    }
                }
            }
            let ghost old_members = members@;
            if g < cells.len() {
                proof {
                    slot = g as int;
                }
                let mut m = members.remove(g);
                let ghost before = m@;
                m.push(i);
                members.insert(g, m);
                assert forall|h: int| 0 <= h < cells@.len() implies lists_people_below(
                    entries@,
                    i + 1,
                    #[trigger] cells@[h],
                    members@[h]@,
                ) by {
                    if h == g {
                        assert(members@[h]@ == before.push(i as usize));
                        assert(lists_people_below(entries@, i as int, cells@[h], before));
                        assert forall|j: int| #[trigger]
                            counted(entries@, i + 1, j, cells@[h]) implies members@[h]@.contains(
                            j as usize,
                        ) by {
                            if j < i {
                                assert(counted(entries@, i as int, j, cells@[h]));
                                let a = choose|a: int| 0 <= a < before.len() && before[a] == j as usize;
                                assert(members@[h]@[a] == j as usize);
                            } else {
                                assert(members@[h]@[before.len() as int] == i as usize);
                            }
                        }
                        assert forall|a: int| 0 <= a < members@[h]@.len() implies counted(
                            entries@,
                            i + 1,
                            #[trigger] members@[h]@[a] as int,
                            cells@[h],
                        ) by {
                            if a < before.len() {
                                assert(counted(entries@, i as int, before[a] as int, cells@[h]));
                            }
                        }
                        assert forall|a: int, b: int|
                            0 <= a < b < members@[h]@.len() implies members@[h]@[a]
                            < members@[h]@[b] by {
                            if b == before.len() {
                                assert(counted(entries@, i as int, before[a] as int, cells@[h]));
                            }
                        }
                    } else {
                        assert(members@[h] == old_members[h]);
                        assert(lists_people_below(entries@, i as int, cells@[h], members@[h]@));
                        assert forall|j: int| #[trigger]
                            counted(entries@, i + 1, j, cells@[h]) implies members@[h]@.contains(
                            j as usize,
                        ) by {
                            assert(counted(entries@, i as int, j, cells@[h]));
                        }
                        assert forall|a: int| 0 <= a < members@[h]@.len() implies counted(
                            entries@,
                            i + 1,
                            #[trigger] members@[h]@[a] as int,
                            cells@[h],
                        ) by {
                            assert(counted(entries@, i as int, members@[h]@[a] as int, cells@[h]));
                        }
                    }
                }
                assert forall|h: int| 0 <= h < cells@.len() implies #[trigger] members@[h]@.len()
                    > 0 by {
                    if h != g {
                        assert(members@[h] == old_members[h]);
                    }
                }
            } else {
                let mut m: Vec<usize> = Vec::new();
                m.push(i);
                proof {
                    slot = cells@.len() as int;
                }
                cells.push(cell);
                members.push(m);
                slots.insert(key, cells.len() - 1);
                assert forall|h: int| 0 <= h < cells@.len() implies #[trigger] slots@.contains_key(
                    cell_key(cells@[h]) as u64,
                ) && slots@[cell_key(cells@[h]) as u64] == h by {
                    lemma_cell_keys_are_distinct(cells@[h], cell);
                    lemma_cell_keys_are_distinct(cell, cell);
                    lemma_cell_keys_are_distinct(cells@[h], cells@[h]);
                }
                assert forall|h: int| 0 <= h < cells@.len() implies lists_people_below(
                    entries@,
                    i + 1,
                    #[trigger] cells@[h],
                    members@[h]@,
                ) by {
                    if h == cells@.len() - 1 {
                        assert(members@[h]@ =~= seq![i as usize]);
                        assert forall|j: int| #[trigger]
                            counted(entries@, i + 1, j, cells@[h]) implies members@[h]@.contains(
                            j as usize,
                        ) by {
                            if j < i {
                                assert(entries@[j].1 == PLAYER_TAG);
                                let gg = choose|gg: int|
                                    0 <= gg < cells@.len() - 1 && #[trigger] cells@[gg]
                                        == entries@[j].0;
                                assert(cells@[gg] == cell);
                            }
                            assert(members@[h]@[0] == i as usize);
                        }
                    } else {
                        assert(lists_people_below(entries@, i as int, cells@[h], members@[h]@));
                        assert forall|j: int| #[trigger]
                            counted(entries@, i + 1, j, cells@[h]) implies members@[h]@.contains(
                            j as usize,
                        ) by {
                            assert(counted(entries@, i as int, j, cells@[h]));
                        }
                        assert forall|a: int| 0 <= a < members@[h]@.len() implies counted(
                            entries@,
                            i + 1,
                            #[trigger] members@[h]@[a] as int,
                            cells@[h],
                        ) by {
                            assert(counted(entries@, i as int, members@[h]@[a] as int, cells@[h]));
                        }
                    }
                }
            }
        } else {
            assert forall|h: int| 0 <= h < cells@.len() implies lists_people_below(
                entries@,
                i + 1,
                #[trigger] cells@[h],
                members@[h]@,
            ) by {
                assert(lists_people_below(entries@, i as int, cells@[h], members@[h]@));
                assert forall|j: int| #[trigger] counted(entries@, i + 1, j, cells@[h]) implies members@[
                h]@.contains(j as usize) by {
                    assert(counted(entries@, i as int, j, cells@[h]));
                }
                assert forall|a: int| 0 <= a < members@[h]@.len() implies counted(
                    entries@,
                    i + 1,
                    #[trigger] members@[h]@[a] as int,
                    cells@[h],
                ) by {
                    assert(counted(entries@, i as int, members@[h]@[a] as int, cells@[h]));
                }
            }
        }
        assert forall|j: int| 0 <= j < i + 1 && entries@[j].1 == PLAYER_TAG implies exists|gg: int|
            0 <= gg < cells@.len() && #[trigger] cells@[gg] == entries@[j].0 by {
            if j < i {
                let gg = choose|gg: int| 0 <= gg < old_cells.len() && #[trigger] old_cells[gg] == entries@[j].0;
                assert(cells@[gg] == entries@[j].0);
            } else {
                assert(cells@[slot] == entries@[j].0);
            }
        }
        i = i + 1;
    }
    (cells, members)
}

/// Every cell holding at least `CROWD_KEEP` people, with who they are, largest
/// first and then by cell.
///
/// `entries` holds each entity's cell and tag; only people (tag
/// `PLAYER_TAG`) are counted, so a field of crops is never a crowd. A crowd's
/// members are positions in `entries`, in increasing order.
pub fn crowds(entries: &[((i32, i32), u16)]) -> (r: Vec<Crowd>)
    ensures
        is_crowds_of(entries@, r@),
{
    let (mut cells, mut members) = group_by_cell(entries);
    assert forall|c: (i32, i32), s: Seq<usize>|
        lists_people_in(entries@, c, s) && s.len() >= CROWD_KEEP implies exists|g: int|
        0 <= g < cells@.len() && #[trigger] cells@[g] == c by {
        assert(counted(entries@, entries@.len() as int, s[0] as int, c));
        assert(entries@[s[0] as int].1 == PLAYER_TAG);
    }
    let mut out: Vec<Crowd> = Vec::new();
    while cells.len() > 0
        invariant
            cells@.len() == members@.len(),
            forall|g: int, h: int| 0 <= g < h < cells@.len() ==> cells@[g] != cells@[h],
            forall|g: int|
                0 <= g < cells@.len() ==> lists_people_in(entries@, #[trigger] cells@[g], members@[g]@),
            forall|k: int|
                0 <= k < out@.len() ==> lists_people_in(entries@, #[trigger] out@[k].cell, out@[k].members@)
                    && out@[k].members@.len() >= CROWD_KEEP,
            forall|a: int, b: int|
                0 <= a < b < out@.len() ==> ahead(
                    out@[a].members@.len() as int,
                    out@[a].cell,
                    out@[b].members@.len() as int,
                    out@[b].cell,
                ),
            forall|k: int, g: int| 0 <= k < out@.len() && 0 <= g < cells@.len() ==> out@[k].cell != cells@[g],
            forall|c: (i32, i32), s: Seq<usize>|
                lists_people_in(entries@, c, s) && s.len() >= CROWD_KEEP ==> (exists|k: int|
                    0 <= k < out@.len() && #[trigger] out@[k].cell == c) || (exists|g: int|
                    0 <= g < cells@.len() && #[trigger] cells@[g] == c),
        decreases cells@.len(),
    {
        let ghost old_cells = cells@;
        let ghost old_members = members@;
        let ghost old_out = out@;
        let cell = match cells.pop() {
            Some(c) => c,
            None => (0, 0),
        };
        let m = match members.pop() {
            Some(m) => m,
            None => Vec::new(),
        };
        let ghost last = old_cells.len() - 1;
        assert(cell == old_cells[last] && m == old_members[last]);
        if m.len() >= CROWD_KEEP {
            let mut p: usize = 0;
            while p < out.len() && goes_ahead(out[p].members.len(), out[p].cell, m.len(), cell)
                invariant
                    p <= out@.len(),
                    forall|q: int|
                        0 <= q < p ==> ahead(
                            out@[q].members@.len() as int,
                            out@[q].cell,
                            m@.len() as int,
                            cell,
                        ),
                decreases out@.len() - p,
            {
                p = p + 1;
            }
            let ghost before = out@;
            assert forall|q: int| p <= q < before.len() implies ahead(
                m@.len() as int,
                cell,
                before[q].members@.len() as int,
                before[q].cell,
            ) by {
                assert(before[p as int].cell != cell);
                if q > p {
                    assert(ahead(
                        before[p as int].members@.len() as int,
                        before[p as int].cell,
                        before[q].members@.len() as int,
                        before[q].cell,
                    ));
                }
            }
            out.insert(p, Crowd { cell, members: m });
            assert(out@ == before.insert(p as int, Crowd { cell, members: m }));
            assert forall|k: int| 0 <= k < out@.len() implies lists_people_in(
                entries@,
                #[trigger] out@[k].cell,
                out@[k].members@,
            ) && out@[k].members@.len() >= CROWD_KEEP by {
                if k < p {
                    assert(out@[k] == before[k]);
                } else if k > p {
                    assert(out@[k] == before[k - 1]);
                }
            }
            assert forall|a: int, b: int| 0 <= a < b < out@.len() implies ahead(
                out@[a].members@.len() as int,
                out@[a].cell,
                out@[b].members@.len() as int,
                out@[b].cell,
            ) by {
                if b < p {
                    assert(out@[a] == before[a] && out@[b] == before[b]);
                } else if b == p {
                    assert(out@[a] == before[a]);
                } else if a < p {
                    assert(out@[a] == before[a] && out@[b] == before[b - 1]);
                } else if a == p {
                    assert(out@[b] == before[b - 1]);
                } else {
                    assert(out@[a] == before[a - 1] && out@[b] == before[b - 1]);
                }
            }
            assert forall|k: int, g: int| 0 <= k < out@.len() && 0 <= g < cells@.len() implies out@[
            k].cell != cells@[g] by {
                assert(cells@[g] == old_cells[g]);
                if k < p {
                    assert(out@[k] == before[k]);
                } else if k > p {
                    assert(out@[k] == before[k - 1]);
                }
            }
            assert forall|c: (i32, i32), s: Seq<usize>|
                lists_people_in(entries@, c, s) && s.len() >= CROWD_KEEP implies (exists|k: int|
                0 <= k < out@.len() && #[trigger] out@[k].cell == c) || (exists|g: int|
                0 <= g < cells@.len() && #[trigger] cells@[g] == c) by {
                if exists|k: int| 0 <= k < before.len() && #[trigger] before[k].cell == c {
                    let k = choose|k: int| 0 <= k < before.len() && #[trigger] before[k].cell == c;
                    if k < p {
                        assert(out@[k] == before[k]);
                    } else {
                        assert(out@[k + 1] == before[k]);
                    }
                } else {
                    let g = choose|g: int| 0 <= g < old_cells.len() && #[trigger] old_cells[g] == c;
                    if g == last {
                        assert(out@[p as int].cell == c);
                    } else {
                        assert(cells@[g] == c);
                    }
                }
            }
        } else {
            assert forall|c: (i32, i32), s: Seq<usize>|
                lists_people_in(entries@, c, s) && s.len() >= CROWD_KEEP implies (exists|k: int|
                0 <= k < out@.len() && #[trigger] out@[k].cell == c) || (exists|g: int|
                0 <= g < cells@.len() && #[trigger] cells@[g] == c) by {
                if !(exists|k: int| 0 <= k < out@.len() && #[trigger] out@[k].cell == c) {
                    let g = choose|g: int| 0 <= g < old_cells.len() && #[trigger] old_cells[g] == c;
                    if g == last {
                        lemma_one_count_per_cell(entries@, entries@.len() as int, c, s, m@);
                    } else {
                        assert(cells@[g] == c);
                    }
                }
            }
        }
    }
    out
}

/// Whether cell `c` carries a badge after crowds `crowds` are seen, given
/// whether it carried one before: a crowd of at least `CROWD_MIN` raises a
/// badge, and one already up stays while its crowd holds at least
/// `CROWD_KEEP`.
pub open spec fn badge_shown(crowds: Seq<Crowd>, c: (i32, i32), shown_before: bool) -> bool {
    exists|k: int|
        0 <= k < crowds.len() && #[trigger] crowds[k].cell == c && (crowds[k].members@.len()
            >= CROWD_MIN || (shown_before && crowds[k].members@.len() >= CROWD_KEEP))
}

/// A cell as one number: its first coordinate, shifted into `0 .. 2^32`, in
/// the high half, and its second, shifted the same way, in the low half.
pub open spec fn cell_key(c: (i32, i32)) -> int {
    (c.0 + 0x8000_0000) * 0x1_0000_0000 + (c.1 + 0x8000_0000)
}

/// No two cells share a key, and every key fits a `u64`.
pub proof fn lemma_cell_keys_are_distinct(a: (i32, i32), b: (i32, i32))
    ensures
        0 <= cell_key(a) <= u64::MAX,
        cell_key(a) == cell_key(b) ==> a == b,
{
}

/// A cell's key.
fn key_of(c: (i32, i32)) -> (r: u64)
    ensures
        r == cell_key(c),
{
    proof {
        lemma_cell_keys_are_distinct(c, c);
    }
    let hi = (c.0 as i64 + 0x8000_0000) as u64;
    let lo = (c.1 as i64 + 0x8000_0000) as u64;
    hi * 0x1_0000_0000 + lo
}

/// Which crowded cells carry a badge, held across frames so a badge can stay
/// up while its crowd hovers around the threshold instead of blinking, and
/// which badge the player has open.
pub struct Badges {
    /// The keys of the cells carrying a badge.
    showing: HashSet<u64>,
    /// The cell whose roster is open, named by cell rather than by position
    /// in the list, which reorders as people walk.
    selected: Option<(i32, i32)>,
}

impl View for Badges {
    /// The cells carrying a badge, and the cell whose roster is open.
    type V = (Set<(i32, i32)>, Option<(i32, i32)>);

    closed spec fn view(&self) -> (Set<(i32, i32)>, Option<(i32, i32)>) {
        (Set::new(|c: (i32, i32)| self.showing@.contains(cell_key(c) as u64)), self.selected)
    }
}

impl Badges {
    /// No badges and nothing open.
    pub fn new() -> (r: Badges)
        ensures
            r@.0 == Set::<(i32, i32)>::empty(),
            r@.1 is None,
    {
        let r = Badges { showing: HashSet::new(), selected: None };
        assert(r@.0 =~= Set::<(i32, i32)>::empty());
        r
    }

    /// Whether a cell carries a badge.
    pub fn shows(&self, c: (i32, i32)) -> (r: bool)
        ensures
            r == self@.0.contains(c),
    {
        let k = key_of(c);
        self.showing.contains(&k)
    }

    /// The cell whose roster is open, if any.
    pub fn selected(&self) -> (r: Option<(i32, i32)>)
        ensures
            r == self@.1,
    {
        self.selected
    }

    /// A click on a cell's badge: opens its roster, or closes it if it was the
    /// one open.
    pub fn click(&mut self, cell: (i32, i32))
        ensures
            final(self)@.0 == old(self)@.0,
            final(self)@.1 == (if old(self)@.1 == Some(cell) {
                None
            } else {
                Some(cell)
            }),
    {
        let open = match self.selected {
            Some(c) => same_cell(c, cell),
            None => false,
        };
        self.selected = if open {
            None
        } else {
            Some(cell)
        };
    }

    /// Brings the badges up to date with this frame's crowds. An open roster
    /// whose crowd has dispersed or left is closed.
    pub fn update(&mut self, crowds: &[Crowd])
        ensures
            forall|c: (i32, i32)| #[trigger] final(self)@.0.contains(c) == badge_shown(
                crowds@,
                c,
                old(self)@.0.contains(c),
            ),
            final(self)@.1 == (match old(self)@.1 {
                Some(cell) => if exists|k: int| 0 <= k < crowds@.len() && #[trigger] crowds@[k].cell
                    == cell {
                    Some(cell)
                } else {
                    None
                },
                None => None,
            }),
    {
        if let Some(cell) = self.selected {
            let mut found = false;
            let mut k: usize = 0;
            while k < crowds.len()
                invariant
                    k <= crowds@.len(),
                    found == exists|j: int| 0 <= j < k && #[trigger] crowds@[j].cell == cell,
                decreases crowds@.len() - k,
            {
                if same_cell(crowds[k].cell, cell) {
                    found = true;
                }
                k = k + 1;
            }
            if !found {
                self.selected = None;
            }
        }
        let ghost before = self@.0;
        let mut next: HashSet<u64> = HashSet::new();
        let mut k: usize = 0;
        while k < crowds.len()
            invariant
                k <= crowds@.len(),
                before == self@.0,
                forall|c: (i32, i32)|
                    #[trigger] next@.contains(cell_key(c) as u64) == exists|j: int|
                        0 <= j < k && #[trigger] crowds@[j].cell == c && (crowds@[j].members@.len()
                            >= CROWD_MIN || (before.contains(c) && crowds@[j].members@.len()
                            >= CROWD_KEEP)),
            decreases crowds@.len() - k,
        {
            let c = crowds[k].cell;
            let n = crowds[k].members.len();
            let key = key_of(c);
            let raise = n >= CROWD_MIN || (n >= CROWD_KEEP && self.showing.contains(&key));
            let ghost prev = next@;
            if raise {
                next.insert(key);
            }
            assert forall|d: (i32, i32)| #[trigger] next@.contains(cell_key(d) as u64) == exists|j: int|
                0 <= j < k + 1 && #[trigger] crowds@[j].cell == d && (crowds@[j].members@.len()
                    >= CROWD_MIN || (before.contains(d) && crowds@[j].members@.len()
                    >= CROWD_KEEP)) by {
                lemma_cell_keys_are_distinct(c, d);
                lemma_cell_keys_are_distinct(d, c);
                assert(prev.contains(cell_key(d) as u64) == exists|j: int|
                    0 <= j < k && #[trigger] crowds@[j].cell == d && (crowds@[j].members@.len()
                        >= CROWD_MIN || (before.contains(d) && crowds@[j].members@.len()
                        >= CROWD_KEEP)));
                if d == c {
                    assert(crowds@[k as int].cell == d);
                }
            }
            k = k + 1;
        }
        self.showing = next;
        assert forall|c: (i32, i32)| #[trigger] self@.0.contains(c) == badge_shown(
            crowds@,
            c,
            before.contains(c),
        ) by {
            assert(self@.0.contains(c) == self.showing@.contains(cell_key(c) as u64));
        }
    }
}

/// A crowd of at least `CROWD_MIN` always raises a badge; a cell with no crowd
/// of at least `CROWD_KEEP` never carries one; and a cell whose only crowd is
/// in between keeps whatever it had.
pub proof fn lemma_badges_hold_steady(crowds: Seq<Crowd>, c: (i32, i32), shown_before: bool, k: int)
    requires
        0 <= k < crowds.len(),
        crowds[k].cell == c,
        forall|j: int| 0 <= j < crowds.len() && #[trigger] crowds[j].cell == c ==> j == k,
    ensures
        crowds[k].members@.len() >= CROWD_MIN ==> badge_shown(crowds, c, shown_before),
        crowds[k].members@.len() < CROWD_KEEP ==> !badge_shown(crowds, c, shown_before),
        CROWD_KEEP <= crowds[k].members@.len() < CROWD_MIN ==> badge_shown(crowds, c, shown_before)
            == shown_before,
{
}

} // verus!
