//! The rules of the category tree: how deep a category lies, and which
//! new children, moves and deletions are allowed. They read a snapshot of
//! the tree (every category, by id).
use vstd::prelude::*;

use crate::models::{opt_view, Category};
use crate::text::str_eq;

verus! {

/// The position of the category with this id (the first, should ids
/// repeat).
pub open spec fn find_cat(cats: Seq<Category>, id: i64) -> Option<int>
    decreases cats.len(),
{
    if cats.len() == 0 {
        None
    } else if cats[0].id == id {
        Some(0)
    } else {
        match find_cat(cats.drop_first(), id) {
            Some(k) => Some(k + 1),
            None => None,
        }
    }
}

proof fn lemma_find_cat(cats: Seq<Category>, id: i64)
    ensures
        find_cat(cats, id) matches Some(k) ==> 0 <= k < cats.len() && cats[k].id == id && forall|j: int|
            0 <= j < k ==> (#[trigger] cats[j]).id != id,
        find_cat(cats, id) is None ==> forall|j: int| 0 <= j < cats.len() ==> (#[trigger] cats[j]).id != id,
    decreases cats.len(),
{
    if cats.len() > 0 {
        lemma_find_cat(cats.drop_first(), id);
        if cats[0].id != id {
            assert forall|j: int| 1 <= j < cats.len() implies (#[trigger] cats[j]).id == cats.drop_first()[j
                - 1].id by {}
        }
    }
}

fn find_cat_exec(cats: &Vec<Category>, id: i64) -> (r: Option<usize>)
    ensures
        match r {
            Some(k) => find_cat(cats@, id) == Some(k as int),
            None => find_cat(cats@, id) is None,
        },
        r matches Some(k) ==> k < cats@.len() && cats@[k as int].id == id,
{
    proof {
        lemma_find_cat(cats@, id);
    }
    let mut i: usize = 0;
    while i < cats.len()
        invariant
            i <= cats@.len(),
            forall|j: int| 0 <= j < i ==> (#[trigger] cats@[j]).id != id,
        decreases cats@.len() - i,
    {
        if cats[i].id == id {
            proof {
                lemma_find_cat_at(cats@, id, i as int);
            }
            return Some(i);
        }
        i = i + 1;
    }
    proof {
        if find_cat(cats@, id) is Some {
            let k = find_cat(cats@, id)->0;
            assert(cats@[k].id == id);
        }
    }
    None
}

proof fn lemma_find_cat_at(cats: Seq<Category>, id: i64, i: int)
    requires
        0 <= i < cats.len(),
        cats[i].id == id,
        forall|j: int| 0 <= j < i ==> (#[trigger] cats[j]).id != id,
    ensures
        find_cat(cats, id) == Some(i),
    decreases cats.len(),
{
    if i > 0 {
        assert forall|j: int| 0 <= j < i - 1 implies (#[trigger] cats.drop_first()[j]).id != id by {
            assert(cats.drop_first()[j] == cats[j + 1]);
        }
        lemma_find_cat_at(cats.drop_first(), id, i - 1);
    }
}

/// The depth reached walking up from `id`, having taken `d` steps: the
/// walk stops at a root, or after more than ten steps; `None` when it
/// meets an id that is not in the tree.
pub open spec fn depth_walk(cats: Seq<Category>, id: i64, d: int) -> Option<int>
    decreases 11 - d,
{
    match find_cat(cats, id) {
        None => None,
        Some(k) => match cats[k].parent_id {
            None => Some(d),
            Some(p) => if d + 1 > 10 || d < 0 { Some(d + 1) } else { depth_walk(cats, p, d + 1) },
        },
    }
}

/// The depth of a category: 0 for a root, 1 for its children, 2 for
/// theirs (counting at most 11); `None` when the walk meets a missing id.
pub fn node_depth(cats: &Vec<Category>, id: i64) -> (r: Option<i64>)
    ensures
        match r {
            Some(d) => depth_walk(cats@, id, 0) == Some(d as int),
            None => depth_walk(cats@, id, 0) is None,
        },
{
    let mut cur = id;
    let mut d: i64 = 0;
    loop
        invariant
            0 <= d <= 10,
            depth_walk(cats@, id, 0) == depth_walk(cats@, cur, d as int),
        decreases 11 - d,
    {
        match find_cat_exec(cats, cur) {
            None => {
                return None;
            },
            Some(k) => match cats[k].parent_id {
                None => {
                    return Some(d);
                },
                Some(p) => {
                    if d + 1 > 10 {
                        return Some(d + 1);
                    }
                    cur = p;
                    d = d + 1;
                },
            },
        }
    }
}

/// The error text of a query for a category that is not there.
pub open spec fn no_rows() -> Seq<char> {
    "Query returned no rows"@
}

pub open spec fn too_deep() -> Seq<char> {
    "最多支持三级分类（一级 → 二级 → 小级）"@
}

/// Whether a new category of `kind` may go under `parent`: the parent must
/// exist, be of the same kind, and lie no deeper than the second level.
pub open spec fn new_child_spec(cats: Seq<Category>, kind: Seq<char>, parent: Option<i64>) -> Result<(), Seq<char>> {
    match parent {
        None => Ok(()),
        Some(pid) => match find_cat(cats, pid) {
            None => Err("父分类不存在"@),
            Some(k) => if cats[k].kind@ != kind {
                Err("子分类必须与父分类属于同一体系（支出/收入/账户）"@)
            } else {
                match depth_walk(cats, pid, 0) {
                    None => Err(no_rows()),
                    Some(d) => if d >= 2 { Err(too_deep()) } else { Ok(()) },
                }
            },
        },
    }
}

pub open spec fn unit_result_view(r: Result<(), String>) -> Result<(), Seq<char>> {
    match r {
        Ok(()) => Ok(()),
        Err(e) => Err(e@),
    }
}

fn depth_error(d: Option<i64>) -> (r: Result<(), String>)
    ensures
        unit_result_view(r) == (match d {
            None => Err::<(), Seq<char>>(no_rows()),
            Some(x) => if x >= 2 { Err(too_deep()) } else { Ok(()) },
        }),
{
    match d {
        None => Err("Query returned no rows".to_owned()),
        Some(x) => if x >= 2 {
            Err("最多支持三级分类（一级 → 二级 → 小级）".to_owned())
        } else {
            Ok(())
        },
    }
}

/// Checks a new category of `kind` under `parent` (none for a root).
pub fn check_new_child(cats: &Vec<Category>, kind: &str, parent: Option<i64>) -> (r: Result<(), String>)
    ensures
        unit_result_view(r) == new_child_spec(cats@, kind@, parent),
{
    match parent {
        None => Ok(()),
        Some(pid) => match find_cat_exec(cats, pid) {
            None => Err("父分类不存在".to_owned()),
            Some(k) => {
                if !str_eq(cats[k].kind.as_str(), kind) {
                    return Err("子分类必须与父分类属于同一体系（支出/收入/账户）".to_owned());
                }
                depth_error(node_depth(cats, pid))
            },
        },
    }
}

/// The kind of the category with this id, if it is there.
pub open spec fn kind_of(cats: Seq<Category>, id: i64) -> Option<Seq<char>> {
    match find_cat(cats, id) {
        Some(k) => Some(cats[k].kind@),
        None => None,
    }
}

/// The parent of the category with this id (none when it is a root or
/// not there).
pub open spec fn parent_or_none(cats: Seq<Category>, id: i64) -> Option<i64> {
    match find_cat(cats, id) {
        Some(k) => cats[k].parent_id,
        None => None,
    }
}

/// Whether the walk up from `cur` meets `id` within eleven steps (the
/// `guard` steps already taken count).
pub open spec fn meets(cats: Seq<Category>, cur: Option<i64>, id: i64, guard: int) -> bool
    decreases 11 - guard,
{
    match cur {
        None => false,
        Some(c) => if c == id {
            true
        } else if guard + 1 > 10 || guard < 0 {
            false
        } else {
            meets(cats, parent_or_none(cats, c), id, guard + 1)
        },
    }
}

/// Some category hangs from `id`.
pub open spec fn has_child(cats: Seq<Category>, id: i64) -> bool {
    exists|k: int| 0 <= k < cats.len() && (#[trigger] cats[k]).parent_id == Some(id)
}

/// Some category hangs from a child of `id`.
pub open spec fn has_grandchild(cats: Seq<Category>, id: i64) -> bool {
    exists|k: int, j: int|
        0 <= k < cats.len() && 0 <= j < cats.len() && (#[trigger] cats[k]).parent_id == Some(id)
            && (#[trigger] cats[j]).parent_id == Some(cats[k].id)
}

/// Whether category `id` may move under `parent` (none for the top
/// level): not under itself, only within its kind, not under one of its
/// own descendants, and so that nothing of what hangs from it ends below
/// the third level: the parent's depth, plus one, plus the height of the
/// moved subtree is at most 2.
pub open spec fn move_spec(cats: Seq<Category>, id: i64, parent: Option<i64>) -> Result<(), Seq<char>> {
    if parent == Some(id) {
        Err("不能把自己设为父级"@)
    } else {
        match parent {
            None => Ok(()),
            Some(pid) => if kind_of(cats, pid) != kind_of(cats, id) {
                Err("只能移动到同一体系（支出/收入/账户）内"@)
            } else if meets(cats, Some(pid), id, 0) {
                Err("不能移动到自己的子分类下"@)
            } else {
                match depth_walk(cats, pid, 0) {
                    None => Err(no_rows()),
                    Some(d) => if d >= 2 || (d == 1 && has_child(cats, id)) || (d == 0 && has_grandchild(cats, id)) {
                        Err(too_deep())
                    } else {
                        Ok(())
                    },
                }
            },
        }
    }
}

fn has_child_exec(cats: &Vec<Category>, id: i64) -> (r: bool)
    ensures
        r == has_child(cats@, id),
{
    let mut i: usize = 0;
    while i < cats.len()
        invariant
            i <= cats@.len(),
            forall|k: int| 0 <= k < i ==> (#[trigger] cats@[k]).parent_id != Some(id),
        decreases cats@.len() - i,
    {
        if cats[i].parent_id == Some(id) {
            return true;
        }
        i = i + 1;
    }
    false
}

fn has_grandchild_exec(cats: &Vec<Category>, id: i64) -> (r: bool)
    ensures
        r == has_grandchild(cats@, id),
{
    let mut i: usize = 0;
    while i < cats.len()
        invariant
            i <= cats@.len(),
            forall|k: int, j: int|
                0 <= k < i && 0 <= j < cats@.len() ==> !((#[trigger] cats@[k]).parent_id == Some(id)
                    && (#[trigger] cats@[j]).parent_id == Some(cats@[k].id)),
        decreases cats@.len() - i,
    {
        if cats[i].parent_id == Some(id) && has_child_exec(cats, cats[i].id) {
            proof {
                let j = choose|j: int| 0 <= j < cats@.len() && (#[trigger] cats@[j]).parent_id == Some(cats@[i as int].id);
                assert(cats@[i as int].parent_id == Some(id) && cats@[j].parent_id == Some(cats@[i as int].id));
            }
            return true;
        }
        i = i + 1;
    }
    false
}

fn kind_of_exec(cats: &Vec<Category>, id: i64) -> (r: Option<String>)
    ensures
        opt_view(r) == kind_of(cats@, id),
{
    match find_cat_exec(cats, id) {
        Some(k) => Some(cats[k].kind.clone()),
        None => None,
    }
}

fn opt_str_eq(a: &Option<String>, b: &Option<String>) -> (r: bool)
    ensures
        r == (opt_view(*a) == opt_view(*b)),
{
    match (a, b) {
        (Some(x), Some(y)) => str_eq(x.as_str(), y.as_str()),
        (None, None) => true,
        _ => false,
    }
}

fn meets_exec(cats: &Vec<Category>, start: i64, id: i64) -> (r: bool)
    ensures
        r == meets(cats@, Some(start), id, 0),
{
    let mut cur: Option<i64> = Some(start);
    let mut guard: i64 = 0;
    loop
        invariant
            0 <= guard <= 10,
            meets(cats@, Some(start), id, 0) == meets(cats@, cur, id, guard as int),
        decreases 11 - guard,
    {
        match cur {
            None => {
                return false;
            },
            Some(c) => {
                if c == id {
                    return true;
                }
                if guard + 1 > 10 {
                    return false;
                }
                cur = match find_cat_exec(cats, c) {
                    Some(k) => cats[k].parent_id,
                    None => None,
                };
                guard = guard + 1;
            },
        }
    }
}

/// Checks moving category `id` under `parent`.
pub fn check_move(cats: &Vec<Category>, id: i64, parent: Option<i64>) -> (r: Result<(), String>)
    ensures
        unit_result_view(r) == move_spec(cats@, id, parent),
{
    if parent == Some(id) {
        return Err("不能把自己设为父级".to_owned());
    }
    match parent {
        None => Ok(()),
        Some(pid) => {
            let pk = kind_of_exec(cats, pid);
            let mk = kind_of_exec(cats, id);
            if !opt_str_eq(&pk, &mk) {
                return Err("只能移动到同一体系（支出/收入/账户）内".to_owned());
            }
            if meets_exec(cats, pid, id) {
                return Err("不能移动到自己的子分类下".to_owned());
            }
            match node_depth(cats, pid) {
                None => Err("Query returned no rows".to_owned()),
                Some(d) => {
                    if d >= 2 || (d == 1 && has_child_exec(cats, id)) || (d == 0 && has_grandchild_exec(cats, id)) {
                        Err("最多支持三级分类（一级 → 二级 → 小级）".to_owned())
                    } else {
                        Ok(())
                    }
                },
            }
        },
    }
}

/// A category may be deleted only when no category hangs from it.
pub open spec fn delete_spec(cats: Seq<Category>, id: i64) -> Result<(), Seq<char>> {
    if exists|k: int| 0 <= k < cats.len() && (#[trigger] cats[k]).parent_id == Some(id) {
        Err("该分类下存在子分类，请先删除或移动子分类"@)
    } else {
        Ok(())
    }
}

pub fn check_delete(cats: &Vec<Category>, id: i64) -> (r: Result<(), String>)
    ensures
        unit_result_view(r) == delete_spec(cats@, id),
{
    let mut i: usize = 0;
    while i < cats.len()
        invariant
            i <= cats@.len(),
            forall|k: int| 0 <= k < i ==> (#[trigger] cats@[k]).parent_id != Some(id),
        decreases cats@.len() - i,
    {
        if cats[i].parent_id == Some(id) {
            return Err("该分类下存在子分类，请先删除或移动子分类".to_owned());
        }
        i = i + 1;
    }
    Ok(())
}

/// A new child that is allowed lies at most three levels deep: its
/// parent is a root or a child of one.
pub proof fn law_new_child_depth(cats: Seq<Category>, kind: Seq<char>, pid: i64)
    requires
        new_child_spec(cats, kind, Some(pid)) is Ok,
    ensures
        depth_walk(cats, pid, 0) matches Some(d) && d <= 1,
        kind_of(cats, pid) == Some(kind),
{
}

/// The tree after category `id` moves under `parent`.
pub open spec fn moved(cats: Seq<Category>, id: i64, parent: Option<i64>) -> Seq<Category> {
    Seq::new(
        cats.len(),
        |k: int|
            if cats[k].id == id {
                Category { parent_id: parent, ..cats[k] }
            } else {
                cats[k]
            },
    )
}

/// Every category lies at most three levels deep (depth 0, 1 or 2).
pub open spec fn depth_ok(cats: Seq<Category>) -> bool {
    forall|k: int|
        0 <= k < cats.len() ==> (#[trigger] depth_walk(cats, cats[k].id, 0) matches Some(d) && d <= 2)
}

/// Walking `n` steps up from `x` reaches a root.
pub open spec fn reaches_root(cats: Seq<Category>, x: i64, n: nat) -> bool
    decreases n,
{
    match find_cat(cats, x) {
        None => false,
        Some(k) => match cats[k].parent_id {
            None => n == 0,
            Some(p) => n > 0 && reaches_root(cats, p, (n - 1) as nat),
        },
    }
}

/// Walking `s` steps up from `x` meets `id` (and not before).
pub open spec fn hits(cats: Seq<Category>, x: i64, id: i64, s: nat) -> bool
    decreases s,
{
    if s == 0 {
        x == id
    } else {
        x != id && match find_cat(cats, x) {
            None => false,
            Some(k) => match cats[k].parent_id {
                None => false,
                Some(p) => hits(cats, p, id, (s - 1) as nat),
            },
        }
    }
}

proof fn lemma_find_moved(cats: Seq<Category>, id: i64, parent: Option<i64>, y: i64)
    ensures
        find_cat(moved(cats, id, parent), y) == find_cat(cats, y),
    decreases cats.len(),
{
    if cats.len() > 0 {
        assert(moved(cats, id, parent).drop_first() =~= moved(cats.drop_first(), id, parent));
        lemma_find_moved(cats.drop_first(), id, parent, y);
    }
}

/// The parent of `y` after the move: `parent` for `id`, unchanged for the
/// others.
proof fn lemma_parent_moved(cats: Seq<Category>, id: i64, parent: Option<i64>, y: i64)
    requires
        find_cat(cats, y) is Some,
    ensures
        find_cat(moved(cats, id, parent), y) == find_cat(cats, y),
        moved(cats, id, parent)[find_cat(cats, y)->0].parent_id == (if y == id {
            parent
        } else {
            cats[find_cat(cats, y)->0].parent_id
        }),
{
    lemma_find_moved(cats, id, parent, y);
    lemma_find_cat(cats, y);
}

proof fn lemma_walk_ge(cats: Seq<Category>, x: i64, d: int)
    requires
        d >= 0,
    ensures
        depth_walk(cats, x, d) matches Some(e) ==> e >= d,
    decreases 11 - d,
{
    if let Some(k) = find_cat(cats, x) {
        if let Some(p) = cats[k].parent_id {
            if !(d + 1 > 10 || d < 0) {
                lemma_walk_ge(cats, p, d + 1);
            }
        }
    }
}

proof fn lemma_walk_reaches(cats: Seq<Category>, x: i64, d: int, e: int)
    requires
        0 <= d,
        e <= 9,
        depth_walk(cats, x, d) == Some(e),
    ensures
        d <= e,
        reaches_root(cats, x, (e - d) as nat),
    decreases 11 - d,
{
    lemma_walk_ge(cats, x, d);
    let k = find_cat(cats, x)->0;
    if let Some(p) = cats[k].parent_id {
        lemma_walk_ge(cats, p, d + 1);
        lemma_walk_reaches(cats, p, d + 1, e);
    }
}

proof fn lemma_reaches_walk(cats: Seq<Category>, x: i64, n: nat, d: int)
    requires
        reaches_root(cats, x, n),
        0 <= d,
        d + n <= 10,
    ensures
        depth_walk(cats, x, d) == Some(d + n),
    decreases n,
{
    let k = find_cat(cats, x)->0;
    if let Some(p) = cats[k].parent_id {
        lemma_reaches_walk(cats, p, (n - 1) as nat, d + 1);
    }
}

/// A chain that does not meet `id` is the same after the move.
proof fn lemma_chain_unmoved(cats: Seq<Category>, id: i64, parent: Option<i64>, y: i64, n: nat, g: int)
    requires
        reaches_root(cats, y, n),
        !meets(cats, Some(y), id, g),
        0 <= g,
        g + n <= 10,
    ensures
        reaches_root(moved(cats, id, parent), y, n),
    decreases n,
{
    lemma_parent_moved(cats, id, parent, y);
    let k = find_cat(cats, y)->0;
    if let Some(p) = cats[k].parent_id {
        lemma_chain_unmoved(cats, id, parent, p, (n - 1) as nat, g + 1);
    }
}

/// Where a category of depth `e` ends after the move: unchanged when its
/// chain does not meet `id`, else the steps to `id` plus the new depth
/// `m` of `id`.
proof fn lemma_moved_reaches(cats: Seq<Category>, id: i64, parent: Option<i64>, m: nat, x: i64, e: nat) -> (r: nat)
    requires
        reaches_root(cats, x, e),
        reaches_root(moved(cats, id, parent), id, m) || !(exists|s: nat| s <= e && hits(cats, x, id, s)),
    ensures
        reaches_root(moved(cats, id, parent), x, r),
        r == e || exists|s: nat| s <= e && hits(cats, x, id, s) && r == s + m,
    decreases e,
{
    lemma_parent_moved(cats, id, parent, x);
    let k = find_cat(cats, x)->0;
    if x == id {
        assert(hits(cats, x, id, 0));
        m
    } else {
        match cats[k].parent_id {
            None => e,
            Some(p) => {
                if exists|s: nat| s <= (e - 1) as nat && hits(cats, p, id, s) {
                    let s = choose|s: nat| s <= (e - 1) as nat && hits(cats, p, id, s);
                    assert(hits(cats, x, id, s + 1));
                }
                let r = lemma_moved_reaches(cats, id, parent, m, p, (e - 1) as nat);
                if r != (e - 1) as nat {
                    let s = choose|s: nat| s <= (e - 1) as nat && hits(cats, p, id, s) && r == s + m;
                    assert(hits(cats, x, id, s + 1));
                }
                r + 1
            },
        }
    }
}

proof fn lemma_hits_one(cats: Seq<Category>, x: i64, id: i64)
    requires
        hits(cats, x, id, 1),
    ensures
        has_child(cats, id),
{
    reveal_with_fuel(hits, 2);
    lemma_find_cat(cats, x);
    let k = find_cat(cats, x)->0;
    assert(cats[k].parent_id == Some(id));
}

proof fn lemma_hits_two(cats: Seq<Category>, x: i64, id: i64)
    requires
        hits(cats, x, id, 2),
    ensures
        has_grandchild(cats, id),
        has_child(cats, id),
{
    reveal_with_fuel(hits, 3);
    lemma_find_cat(cats, x);
    let j = find_cat(cats, x)->0;
    let y = cats[j].parent_id->0;
    lemma_find_cat(cats, y);
    let k = find_cat(cats, y)->0;
    assert(cats[k].parent_id == Some(id));
    assert(cats[j].parent_id == Some(cats[k].id));
}

proof fn lemma_find_push(cats: Seq<Category>, c: Category, y: i64)
    ensures
        find_cat(cats, y) is Some ==> find_cat(cats.push(c), y) == find_cat(cats, y),
        find_cat(cats, y) is None && c.id == y ==> find_cat(cats.push(c), y) == Some(cats.len() as int),
    decreases cats.len(),
{
    if cats.len() > 0 {
        assert(cats.push(c).drop_first() =~= cats.drop_first().push(c));
        lemma_find_push(cats.drop_first(), c, y);
    } else {
        assert(cats.push(c)[0] == c);
    }
}

proof fn lemma_reaches_push(cats: Seq<Category>, c: Category, x: i64, n: nat)
    requires
        reaches_root(cats, x, n),
    ensures
        reaches_root(cats.push(c), x, n),
    decreases n,
{
    lemma_find_push(cats, c, x);
    lemma_find_cat(cats, x);
    let k = find_cat(cats, x)->0;
    assert(cats.push(c)[k] == cats[k]);
    if let Some(p) = cats[k].parent_id {
        lemma_reaches_push(cats, c, p, (n - 1) as nat);
    }
}

/// A new child that is allowed keeps the tree within three levels: when
/// every category lies at depth 2 at most, so does every category after
/// the new one (with an id not yet used) is added under its parent.
pub proof fn law_new_child_keeps_tree(cats: Seq<Category>, c: Category)
    requires
        depth_ok(cats),
        c.parent_id matches Some(pid) && new_child_spec(cats, c.kind@, Some(pid)) is Ok,
        find_cat(cats, c.id) is None,
    ensures
        depth_ok(cats.push(c)),
{
    let pid = c.parent_id->0;
    let all = cats.push(c);
    let dp = depth_walk(cats, pid, 0)->0;
    lemma_walk_reaches(cats, pid, 0, dp);
    lemma_reaches_push(cats, c, pid, dp as nat);
    lemma_find_push(cats, c, c.id);
    assert(all[cats.len() as int] == c);
    assert(reaches_root(all, c.id, (dp + 1) as nat));
    assert forall|k: int| 0 <= k < all.len() implies (#[trigger] depth_walk(all, all[k].id, 0) matches Some(d) && d
        <= 2) by {
        if k < cats.len() {
            assert(all[k] == cats[k]);
            assert(depth_walk(cats, cats[k].id, 0) matches Some(d) && d <= 2);
            let e = depth_walk(cats, cats[k].id, 0)->0;
            lemma_walk_reaches(cats, cats[k].id, 0, e);
            lemma_reaches_push(cats, c, cats[k].id, e as nat);
            lemma_reaches_walk(all, cats[k].id, e as nat, 0);
        } else {
            lemma_reaches_walk(all, c.id, (dp + 1) as nat, 0);
        }
    }
}

/// A move that is allowed keeps the tree within three levels: when every
/// category lies at depth 2 at most before it, every category does after
/// it, the moved one and all that hangs from it included. The new parent
/// is not the category itself nor below it, and is of its kind.
pub proof fn law_move_keeps_tree(cats: Seq<Category>, id: i64, parent: Option<i64>)
    requires
        depth_ok(cats),
        move_spec(cats, id, parent) is Ok,
    ensures
        depth_ok(moved(cats, id, parent)),
        parent matches Some(pid) ==> pid != id && !meets(cats, Some(pid), id, 0) && kind_of(cats, pid)
            == kind_of(cats, id),
{
    let mv = moved(cats, id, parent);
    let m: nat = match parent {
        None => 0,
        Some(pid) => (depth_walk(cats, pid, 0)->0 + 1) as nat,
    };
    if find_cat(cats, id) is Some {
        lemma_parent_moved(cats, id, parent, id);
        match parent {
            None => {},
            Some(pid) => {
                let dp = depth_walk(cats, pid, 0)->0;
                lemma_walk_reaches(cats, pid, 0, dp);
                lemma_chain_unmoved(cats, id, parent, pid, dp as nat, 0);
                lemma_parent_moved(cats, id, parent, id);
            },
        }
        assert(reaches_root(mv, id, m));
    }
    assert forall|k: int| 0 <= k < mv.len() implies (#[trigger] depth_walk(mv, mv[k].id, 0) matches Some(d) && d
        <= 2) by {
        let x = cats[k].id;
        assert(mv[k].id == x);
        let e = depth_walk(cats, x, 0)->0;
        assert(depth_walk(cats, cats[k].id, 0) matches Some(d) && d <= 2);
        lemma_walk_reaches(cats, x, 0, e);
        if exists|s: nat| s <= e as nat && hits(cats, x, id, s) {
            let s = choose|s: nat| s <= e as nat && hits(cats, x, id, s);
            lemma_hits_reach(cats, x, id, s, e as nat);
        }
        let r = lemma_moved_reaches(cats, id, parent, m, x, e as nat);
        if r != e as nat {
            let s = choose|s: nat| s <= e as nat && hits(cats, x, id, s) && r == s + m;
            if s == 1 {
                lemma_hits_one(cats, x, id);
            } else if s == 2 {
                lemma_hits_two(cats, x, id);
            }
        }
        lemma_reaches_walk(mv, x, r, 0);
    }
}

/// A chain that reaches a root and meets `id` on the way meets a
/// category that is in the tree.
proof fn lemma_hits_reach(cats: Seq<Category>, x: i64, id: i64, s: nat, e: nat)
    requires
        hits(cats, x, id, s),
        reaches_root(cats, x, e),
        s <= e,
    ensures
        find_cat(cats, id) is Some,
    decreases s,
{
    if s > 0 {
        let k = find_cat(cats, x)->0;
        let p = cats[k].parent_id->0;
        lemma_hits_reach(cats, p, id, (s - 1) as nat, (e - 1) as nat);
    }
}

} // verus!
