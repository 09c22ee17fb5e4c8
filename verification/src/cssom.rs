//! CSSOM identities of author style sheets.
//!
//! Every retained author sheet carries an opaque, stable key. A sheet owned
//! directly by the document is keyed by its owner element (`node:<id>`) or,
//! without one, by its document position (`document:<n>`). An imported sheet
//! is keyed by the import path that reaches it from its root sheet
//! (`<parent key>/import:<index>`). A sheet whose parent cannot be found
//! gets an `orphan-import:<sheet id>` key; so does the sheet where an import
//! cycle is entered, as the root of the keys of the sheets walked round it.

use vstd::prelude::*;
use vstd::string::*;

verus! {

/// The import rule that brought an imported sheet in: the parent sheet's id
/// and the rule's position among the parent's imports.
#[derive(Clone, Copy, Debug, PartialEq, Eq, Structural)]
pub struct StylesheetImportParent {
    pub sheet_id: u64,
    pub import_index: usize,
}

/// What a resolved author sheet's CSSOM identity depends on.
#[derive(Clone, Copy, Debug, PartialEq, Eq, Structural)]
pub struct SheetIdentity {
    pub sheet_id: u64,
    /// The document element that owns a direct sheet.
    pub owner_node: Option<u64>,
    /// The sheet's position among the document's resolved sheets.
    pub document_order: u64,
    /// Set for a sheet brought in by an `@import` rule.
    pub import_parent: Option<StylesheetImportParent>,
}

// ----- key text ---------------------------------------------------------

/// The decimal digit character for `d < 10`.
pub open spec fn digit_char(d: nat) -> char {
    ((48 + d) as u8) as char
}

/// The decimal representation of `n`, without leading zeros.
pub open spec fn decimal(n: nat) -> Seq<char>
    decreases n,
{
    if n < 10 {
        seq![digit_char(n)]
    } else {
        decimal(n / 10).push(digit_char(n % 10))
    }
}

pub open spec fn node_prefix() -> Seq<char> {
    seq!['n', 'o', 'd', 'e', ':']
}

pub open spec fn document_prefix() -> Seq<char> {
    seq!['d', 'o', 'c', 'u', 'm', 'e', 'n', 't', ':']
}

pub open spec fn orphan_prefix() -> Seq<char> {
    seq!['o', 'r', 'p', 'h', 'a', 'n', '-', 'i', 'm', 'p', 'o', 'r', 't', ':']
}

pub open spec fn import_prefix() -> Seq<char> {
    seq!['/', 'i', 'm', 'p', 'o', 'r', 't', ':']
}

/// The key of a sheet that is not imported.
pub open spec fn root_key(sheet: SheetIdentity) -> Seq<char> {
    match sheet.owner_node {
        Some(node) => node_prefix() + decimal(node as nat),
        None => document_prefix() + decimal(sheet.document_order as nat),
    }
}

/// The key of a sheet whose import chain cannot be resolved.
pub open spec fn orphan_key(sheet_id: u64) -> Seq<char> {
    orphan_prefix() + decimal(sheet_id as nat)
}

/// What an import rule adds to its parent's key.
pub open spec fn import_suffix(import_index: usize) -> Seq<char> {
    import_prefix() + decimal(import_index as nat)
}

// ----- the import graph -------------------------------------------------

/// The last position holding a sheet with this id: a later sheet with a
/// repeated id shadows an earlier one.
pub open spec fn last_index_of(sheets: Seq<SheetIdentity>, sheet_id: u64) -> Option<int>
    decreases sheets.len(),
{
    if sheets.len() == 0 {
        None
    } else if sheets.last().sheet_id == sheet_id {
        Some(sheets.len() - 1)
    } else {
        last_index_of(sheets.drop_last(), sheet_id)
    }
}

/// A found position lies in the list.
proof fn lemma_last_index_in_range(sheets: Seq<SheetIdentity>, sheet_id: u64)
    ensures
        last_index_of(sheets, sheet_id) matches Some(j) ==> 0 <= j < sheets.len()
            && sheets[j].sheet_id == sheet_id,
    decreases sheets.len(),
{
    if sheets.len() > 0 && sheets.last().sheet_id != sheet_id {
        lemma_last_index_in_range(sheets.drop_last(), sheet_id);
    }
}

/// The position of the sheet that imported sheet `i`, when there is one.
pub open spec fn parent_sheet(sheets: Seq<SheetIdentity>, i: int) -> Option<int> {
    match sheets[i].import_parent {
        None => None,
        Some(parent) => last_index_of(sheets, parent.sheet_id),
    }
}

/// Following import parents from sheet `i` ends after exactly `depth` steps
/// at a sheet with no parent in the list.
pub open spec fn terminates(sheets: Seq<SheetIdentity>, i: int, depth: nat) -> bool
    decreases depth,
{
    if depth == 0 {
        parent_sheet(sheets, i) is None
    } else {
        match parent_sheet(sheets, i) {
            Some(parent) => terminates(sheets, parent, (depth - 1) as nat),
            None => false,
        }
    }
}

/// The key of sheet `i` when its import chain ends after `depth` steps.
pub open spec fn key_at(sheets: Seq<SheetIdentity>, i: int, depth: nat) -> Seq<char>
    decreases depth,
{
    if depth == 0 {
        match sheets[i].import_parent {
            None => root_key(sheets[i]),
            Some(_) => orphan_key(sheets[i].sheet_id),
        }
    } else {
        match (parent_sheet(sheets, i), sheets[i].import_parent) {
            (Some(parent), Some(rule)) => key_at(sheets, parent, (depth - 1) as nat)
                + import_suffix(rule.import_index),
            _ => Seq::empty(),
        }
    }
}

/// The key of sheet `i`, when its import chain ends; `None` when it runs in
/// a cycle.
pub open spec fn resolved_key(sheets: Seq<SheetIdentity>, i: int) -> Option<Seq<char>> {
    if exists|depth: nat| terminates(sheets, i, depth) {
        Some(key_at(sheets, i, choose|depth: nat| terminates(sheets, i, depth)))
    } else {
        None
    }
}

/// The sheet reached from sheet `i` by following `n` import parents;
/// `None` when the chain ends before.
pub open spec fn reach(sheets: Seq<SheetIdentity>, i: int, n: nat) -> Option<int>
    decreases n,
{
    if n == 0 {
        Some(i)
    } else {
        match parent_sheet(sheets, i) {
            Some(p) => reach(sheets, p, (n - 1) as nat),
            None => None,
        }
    }
}

/// Sheet `x` lies on a cycle of import parents.
pub open spec fn on_cycle(sheets: Seq<SheetIdentity>, x: int) -> bool {
    exists|n: nat| n >= 1 && #[trigger] reach(sheets, x, n) == Some(x)
}

/// The key that walking `n` import parents up from sheet `i` builds on
/// `base`, the key of the sheet reached: one import suffix per step.
pub open spec fn chain_key(sheets: Seq<SheetIdentity>, i: int, n: nat, base: Seq<char>) -> Seq<char>
    decreases n,
{
    if n == 0 {
        base
    } else {
        match (parent_sheet(sheets, i), sheets[i].import_parent) {
            (Some(p), Some(rule)) => chain_key(sheets, p, (n - 1) as nat, base) + import_suffix(
                rule.import_index,
            ),
            _ => Seq::empty(),
        }
    }
}

/// Sheet `k`'s chain of import parents reaches sheet `c`.
pub open spec fn walks_to(sheets: Seq<SheetIdentity>, k: int, c: int) -> bool {
    exists|a: nat| #[trigger] reach(sheets, k, a) == Some(c)
}

/// The first sheet from position `k` on whose chain reaches sheet `c`; the
/// list length when none does.
pub open spec fn first_walker_from(sheets: Seq<SheetIdentity>, c: int, k: int) -> int
    decreases sheets.len() - k,
{
    if k < 0 || k >= sheets.len() {
        sheets.len() as int
    } else if walks_to(sheets, k, c) {
        k
    } else {
        first_walker_from(sheets, c, k + 1)
    }
}

/// A sheet of the cycle that sheet `i`'s chain runs into.
pub open spec fn cycle_rep(sheets: Seq<SheetIdentity>, i: int) -> int {
    choose|c: int| on_cycle(sheets, c) && walks_to(sheets, i, c)
}

/// Step `t` of sheet `j`'s chain is its first sheet on a cycle.
pub open spec fn is_entry_step(sheets: Seq<SheetIdentity>, j: int, t: nat) -> bool {
    &&& reach(sheets, j, t) is Some
    &&& on_cycle(sheets, reach(sheets, j, t)->0)
    &&& forall|u: nat| u < t ==> !on_cycle(sheets, #[trigger] reach(sheets, j, u)->0)
}

/// The sheet where the cycle that sheet `i` runs into is entered when keys
/// are resolved in list order: the first sheet on a cycle along the chain of
/// the first sheet in the list whose chain reaches that cycle.
pub open spec fn cycle_entry(sheets: Seq<SheetIdentity>, i: int) -> int {
    let j = first_walker_from(sheets, cycle_rep(sheets, i), 0);
    reach(sheets, j, choose|t: nat| is_entry_step(sheets, j, t))->0
}

/// Walking `n` parents up from sheet `i` arrives at sheet `e` from within
/// its cycle.
pub open spec fn arrives(sheets: Seq<SheetIdentity>, i: int, e: int, n: nat) -> bool {
    &&& n >= 1
    &&& reach(sheets, i, n) == Some(e)
    &&& reach(sheets, i, (n - 1) as nat) is Some
    &&& on_cycle(sheets, reach(sheets, i, (n - 1) as nat)->0)
}

/// The first arrival at `e` from within its cycle.
pub open spec fn is_first_arrival(sheets: Seq<SheetIdentity>, i: int, e: int, n: nat) -> bool {
    arrives(sheets, i, e, n) && forall|m: nat| m < n ==> !#[trigger] arrives(sheets, i, e, m)
}

/// The key of sheet `i` whose chain runs into a cycle: the orphan key of
/// the cycle's entry, followed by the import suffixes of the sheets walked
/// from `i` until the walk first arrives at the entry from within the cycle.
pub open spec fn cycle_key_of(sheets: Seq<SheetIdentity>, i: int) -> Seq<char> {
    let e = cycle_entry(sheets, i);
    chain_key(
        sheets,
        i,
        choose|n: nat| is_first_arrival(sheets, i, e, n),
        orphan_key(sheets[e].sheet_id),
    )
}

/// A key fits sheet `i`: it is the resolved key, or, for a sheet whose
/// import chain runs into a cycle, its cycle key.
pub open spec fn key_fits(sheets: Seq<SheetIdentity>, i: int, key: Seq<char>) -> bool {
    match resolved_key(sheets, i) {
        Some(resolved) => key == resolved,
        None => key == cycle_key_of(sheets, i),
    }
}

/// One step up a chain is the parent.
proof fn lemma_reach_one(sheets: Seq<SheetIdentity>, x: int)
    ensures
        reach(sheets, x, 1) == parent_sheet(sheets, x),
{
    if let Some(q) = parent_sheet(sheets, x) {
        assert(reach(sheets, q, 0) == Some(q));
    }
}

/// Following `a` and then `b` parents is following `a + b`.
proof fn lemma_reach_add(sheets: Seq<SheetIdentity>, i: int, a: nat, b: nat)
    ensures
        reach(sheets, i, a + b) == match reach(sheets, i, a) {
            Some(x) => reach(sheets, x, b),
            None => None,
        },
    decreases a,
{
    if a > 0 {
        match parent_sheet(sheets, i) {
            Some(p) => {
                lemma_reach_add(sheets, p, (a - 1) as nat, b);
                assert((a + b - 1) as nat == (a - 1) as nat + b);
            },
            None => {},
        }
    }
}

/// Every sheet of a cycle of import parents lies on a cycle.
proof fn lemma_cycle_members(sheets: Seq<SheetIdentity>, cycle: Seq<usize>, k: int)
    requires
        cycle.len() > 0,
        forall|j: int|
            0 <= j < cycle.len() - 1 ==> parent_sheet(sheets, #[trigger] cycle[j] as int) == Some(
                cycle[j + 1] as int,
            ),
        parent_sheet(sheets, cycle.last() as int) == Some(cycle[0] as int),
        0 <= k < cycle.len(),
    ensures
        on_cycle(sheets, cycle[k] as int),
{
    let len = cycle.len();
    lemma_cycle_walk(sheets, cycle, k, (len - 1 - k) as nat);
    lemma_cycle_walk(sheets, cycle, 0, k as nat);
    assert(reach(sheets, cycle[len - 1] as int, 1) == Some(cycle[0] as int)) by {
        assert(reach(sheets, cycle[0] as int, 0) == Some(cycle[0] as int));
    }
    lemma_reach_add(sheets, cycle[k] as int, (len - 1 - k) as nat, 1);
    lemma_reach_add(sheets, cycle[k] as int, (len - k) as nat, k as nat);
    assert(reach(sheets, cycle[k] as int, len as nat) == Some(cycle[k] as int));
}

/// Walking `s` parents along a cycle from its `k`-th sheet, within the cycle.
proof fn lemma_cycle_walk(sheets: Seq<SheetIdentity>, cycle: Seq<usize>, k: int, s: nat)
    requires
        forall|j: int|
            0 <= j < cycle.len() - 1 ==> parent_sheet(sheets, #[trigger] cycle[j] as int) == Some(
                cycle[j + 1] as int,
            ),
        0 <= k,
        k + s < cycle.len(),
    ensures
        reach(sheets, cycle[k] as int, s) == Some(cycle[k + s] as int),
    decreases s,
{
    if s > 0 {
        lemma_cycle_walk(sheets, cycle, k + 1, (s - 1) as nat);
        assert(parent_sheet(sheets, cycle[k] as int) == Some(cycle[k + 1] as int));
    }
}

/// The sheets a chain reaches from a listed sheet are listed.
proof fn lemma_reach_in_range(sheets: Seq<SheetIdentity>, i: int, n: nat)
    requires
        0 <= i < sheets.len(),
    ensures
        reach(sheets, i, n) matches Some(x) ==> 0 <= x < sheets.len(),
    decreases n,
{
    if n > 0 {
        if let Some(rule) = sheets[i].import_parent {
            lemma_last_index_in_range(sheets, rule.sheet_id);
            if let Some(p) = parent_sheet(sheets, i) {
                lemma_reach_in_range(sheets, p, (n - 1) as nat);
            }
        }
    }
}

/// A chain that reaches nothing after `n` steps ends before.
proof fn lemma_reach_none_terminates(sheets: Seq<SheetIdentity>, i: int, n: nat)
    requires
        reach(sheets, i, n) is None,
    ensures
        exists|d: nat| d < n && terminates(sheets, i, d),
    decreases n,
{
    match parent_sheet(sheets, i) {
        None => {
            assert(terminates(sheets, i, 0));
        },
        Some(p) => {
            lemma_reach_none_terminates(sheets, p, (n - 1) as nat);
            let d = choose|d: nat| d < n - 1 && terminates(sheets, p, d);
            assert(terminates(sheets, i, d + 1));
        },
    }
}

/// Going round a cycle `k` times comes back.
proof fn lemma_reach_laps(sheets: Seq<SheetIdentity>, c: int, len: nat, k: nat)
    requires
        reach(sheets, c, len) == Some(c),
    ensures
        reach(sheets, c, len * k) == Some(c),
    decreases k,
{
    if k > 0 {
        let km1 = (k - 1) as nat;
        lemma_reach_laps(sheets, c, len, km1);
        lemma_reach_add(sheets, c, len * km1, len);
        assert(len * km1 + len == len * k) by (nonlinear_arith)
            requires
                km1 + 1 == k,
        ;
    } else {
        assert(len * k == 0) by (nonlinear_arith)
            requires
                k == 0,
        ;
    }
}

/// Reaching is transitive.
proof fn lemma_walks_trans(sheets: Seq<SheetIdentity>, a: int, b: int, c: int)
    requires
        walks_to(sheets, a, b),
        walks_to(sheets, b, c),
    ensures
        walks_to(sheets, a, c),
{
    let x = choose|x: nat| reach(sheets, a, x) == Some(b);
    let y = choose|y: nat| reach(sheets, b, y) == Some(c);
    lemma_reach_add(sheets, a, x, y);
    assert(reach(sheets, a, x + y) == Some(c));
}

/// What a sheet on a cycle reaches lies on that cycle and reaches it back.
proof fn lemma_same_cycle(sheets: Seq<SheetIdentity>, c: int, d: int)
    requires
        on_cycle(sheets, c),
        walks_to(sheets, c, d),
    ensures
        walks_to(sheets, d, c),
        on_cycle(sheets, d),
{
    let len = choose|n: nat| n >= 1 && reach(sheets, c, n) == Some(c);
    let a = choose|a: nat| reach(sheets, c, a) == Some(d);
    lemma_reach_laps(sheets, c, len, a);
    let b = (len * a - a) as nat;
    assert(len * a >= a) by (nonlinear_arith)
        requires
            len >= 1,
    ;
    lemma_reach_add(sheets, c, a, b);
    assert(a + b == len * a);
    assert(reach(sheets, d, b) == Some(c));
    if a == 0 {
        assert(d == c);
    } else {
        lemma_reach_add(sheets, d, b, a);
        assert(reach(sheets, d, b + a) == Some(d));
    }
}

/// Two cycle sheets reached from one sheet lie on the same cycle.
proof fn lemma_cycles_meet(sheets: Seq<SheetIdentity>, i: int, c1: int, c2: int)
    requires
        on_cycle(sheets, c1),
        on_cycle(sheets, c2),
        walks_to(sheets, i, c1),
        walks_to(sheets, i, c2),
    ensures
        walks_to(sheets, c1, c2),
{
    let a1 = choose|a: nat| reach(sheets, i, a) == Some(c1);
    let a2 = choose|a: nat| reach(sheets, i, a) == Some(c2);
    if a1 <= a2 {
        lemma_reach_add(sheets, i, a1, (a2 - a1) as nat);
        assert(reach(sheets, c1, (a2 - a1) as nat) == Some(c2));
    } else {
        lemma_reach_add(sheets, i, a2, (a1 - a2) as nat);
        assert(reach(sheets, c2, (a1 - a2) as nat) == Some(c1));
        lemma_same_cycle(sheets, c2, c1);
    }
}

/// The first walker is the first sheet from `k0` whose chain reaches `c`.
proof fn lemma_first_walker_is(sheets: Seq<SheetIdentity>, c: int, k0: int, j: int)
    requires
        0 <= k0 <= j < sheets.len(),
        walks_to(sheets, j, c),
        forall|k: int| k0 <= k < j ==> !walks_to(sheets, k, c),
    ensures
        first_walker_from(sheets, c, k0) == j,
    decreases j - k0,
{
    if k0 < j {
        lemma_first_walker_is(sheets, c, k0 + 1, j);
    }
}

/// The first walker depends only on which sheets reach the target.
proof fn lemma_first_walker_same(sheets: Seq<SheetIdentity>, c1: int, c2: int, k: int)
    requires
        forall|x: int| walks_to(sheets, x, c1) <==> walks_to(sheets, x, c2),
    ensures
        first_walker_from(sheets, c1, k) == first_walker_from(sheets, c2, k),
    decreases sheets.len() - k,
{
    if 0 <= k < sheets.len() && !walks_to(sheets, k, c1) {
        lemma_first_walker_same(sheets, c1, c2, k + 1);
    }
}

/// A chain step on a cycle has a first such step at or before it.
proof fn lemma_entry_step_exists(sheets: Seq<SheetIdentity>, j: int, p: nat)
    requires
        reach(sheets, j, p) is Some,
        on_cycle(sheets, reach(sheets, j, p)->0),
    ensures
        exists|t: nat| t <= p && is_entry_step(sheets, j, t),
    decreases p,
{
    if exists|u: nat| u < p && on_cycle(sheets, #[trigger] reach(sheets, j, u)->0) {
        let u = choose|u: nat| u < p && on_cycle(sheets, #[trigger] reach(sheets, j, u)->0);
        lemma_reach_add(sheets, j, u, (p - u) as nat);
        lemma_entry_step_exists(sheets, j, u);
    } else {
        assert(is_entry_step(sheets, j, p));
    }
}

/// There is one first cycle step.
proof fn lemma_entry_step_unique(sheets: Seq<SheetIdentity>, j: int, t1: nat, t2: nat)
    requires
        is_entry_step(sheets, j, t1),
        is_entry_step(sheets, j, t2),
    ensures
        t1 == t2,
{
    if t1 < t2 {
        assert(!on_cycle(sheets, reach(sheets, j, t1)->0));
    } else if t2 < t1 {
        assert(!on_cycle(sheets, reach(sheets, j, t2)->0));
    }
}

/// An arrival has a first arrival at or before it.
proof fn lemma_first_arrival_exists(sheets: Seq<SheetIdentity>, i: int, e: int, n: nat)
    requires
        arrives(sheets, i, e, n),
    ensures
        exists|f: nat| f <= n && is_first_arrival(sheets, i, e, f),
    decreases n,
{
    if exists|m: nat| m < n && #[trigger] arrives(sheets, i, e, m) {
        let m = choose|m: nat| m < n && #[trigger] arrives(sheets, i, e, m);
        lemma_first_arrival_exists(sheets, i, e, m);
    } else {
        assert(is_first_arrival(sheets, i, e, n));
    }
}

/// There is one first arrival.
proof fn lemma_first_arrival_unique(sheets: Seq<SheetIdentity>, i: int, e: int, a: nat, b: nat)
    requires
        is_first_arrival(sheets, i, e, a),
        is_first_arrival(sheets, i, e, b),
    ensures
        a == b,
{
    if a < b {
        assert(!arrives(sheets, i, e, a));
    } else if b < a {
        assert(!arrives(sheets, i, e, b));
    }
}

/// A chain that never ends runs into a cycle.
proof fn lemma_reaches_cycle(sheets: Seq<SheetIdentity>, i: int)
    requires
        0 <= i < sheets.len(),
        forall|d: nat| !terminates(sheets, i, d),
    ensures
        exists|c: int| on_cycle(sheets, c) && walks_to(sheets, i, c),
{
    let n = sheets.len();
    assert forall|t: nat| reach(sheets, i, t) is Some by {
        if reach(sheets, i, t) is None {
            lemma_reach_none_terminates(sheets, i, t);
        }
    }
    let steps = Seq::new((n + 1) as nat, |t: int| reach(sheets, i, t as nat)->0);
    assert forall|t: int| 0 <= t < steps.len() implies 0 <= #[trigger] steps[t] < n by {
        lemma_reach_in_range(sheets, i, t as nat);
    }
    if steps.no_duplicates() {
        lemma_distinct_ints_bounded(steps, n as int);
    }
    let (a, b) = choose|a: int, b: int| 0 <= a < steps.len() && 0 <= b < steps.len() && a != b && steps[a] == steps[b];
    let (lo, hi) = if a < b {
        (a, b)
    } else {
        (b, a)
    };
    lemma_reach_in_range(sheets, i, lo as nat);
    lemma_reach_in_range(sheets, i, hi as nat);
    let x = reach(sheets, i, lo as nat)->0;
    assert(steps[lo] == reach(sheets, i, lo as nat)->0);
    assert(steps[hi] == reach(sheets, i, hi as nat)->0);
    assert(reach(sheets, i, hi as nat) == Some(x));
    lemma_reach_add(sheets, i, lo as nat, (hi - lo) as nat);
    assert(reach(sheets, x, (hi - lo) as nat) == Some(x));
    assert(on_cycle(sheets, x));
    assert(walks_to(sheets, i, x));
}

/// Along a chain whose first `len` sheets are distinct and whose next sheet
/// repeats the `m`-th, every later sheet is among those from the `m`-th on.
proof fn lemma_walk_periodic(sheets: Seq<SheetIdentity>, j: int, path: Seq<usize>, m: int, t: nat)
    requires
        0 <= m < path.len(),
        forall|u: int| 0 <= u < path.len() ==> reach(sheets, j, u as nat) == Some(#[trigger] path[u] as int),
        reach(sheets, j, path.len()) == Some(path[m] as int),
    ensures
        exists|s: int| 0 <= s < path.len() && reach(sheets, j, t) == Some(path[s] as int) && (t < path.len() ==> s
            == t) && (t >= path.len() ==> m <= s),
    decreases t,
{
    if t < path.len() {
        assert(reach(sheets, j, t) == Some(path[t as int] as int));
    } else if t == path.len() {
        assert(reach(sheets, j, t) == Some(path[m] as int));
    } else {
        lemma_walk_periodic(sheets, j, path, m, (t - 1) as nat);
        let s = choose|s: int| 0 <= s < path.len() && reach(sheets, j, (t - 1) as nat) == Some(path[s] as int) && (
        (t - 1) as nat >= path.len() ==> m <= s);
        lemma_reach_add(sheets, j, (t - 1) as nat, 1);
        lemma_reach_add(sheets, j, s as nat, 1);
        if s + 1 < path.len() {
            assert(reach(sheets, j, (s + 1) as nat) == Some(path[s + 1] as int));
            assert(reach(sheets, j, t) == Some(path[s + 1] as int));
        } else {
            assert(reach(sheets, j, t) == Some(path[m] as int));
        }
    }
}

/// No sheet of a distinct chain prefix before its repeated sheet lies on a
/// cycle.
proof fn lemma_not_on_cycle_before(sheets: Seq<SheetIdentity>, j: int, path: Seq<usize>, m: int, u: int)
    requires
        0 <= u < m < path.len(),
        path.no_duplicates(),
        forall|v: int| 0 <= v < path.len() ==> reach(sheets, j, v as nat) == Some(#[trigger] path[v] as int),
        reach(sheets, j, path.len()) == Some(path[m] as int),
    ensures
        !on_cycle(sheets, path[u] as int),
{
    if on_cycle(sheets, path[u] as int) {
        let len = choose|n: nat| n >= 1 && reach(sheets, path[u] as int, n) == Some(path[u] as int);
        lemma_reach_add(sheets, j, u as nat, len);
        lemma_walk_periodic(sheets, j, path, m, (u + len) as nat);
        let s = choose|s: int| 0 <= s < path.len() && reach(sheets, j, (u + len) as nat) == Some(path[s] as int) && (
        (u + len) < path.len() ==> s == u + len) && ((u + len) >= path.len() ==> m <= s);
        assert(path[s] == path[u]);
    }
}

/// Every sheet along the chain of a sheet with a memoised key has one, when
/// the memo is closed under parents.
proof fn lemma_walk_memoised(sheets: Seq<SheetIdentity>, memo: Seq<Option<String>>, k: int, a: nat)
    requires
        memo.len() == sheets.len(),
        memo_closed(sheets, memo),
        0 <= k < sheets.len(),
        memo[k] is Some,
        reach(sheets, k, a) is Some,
    ensures
        memo[reach(sheets, k, a)->0] is Some,
    decreases a,
{
    if a > 0 {
        lemma_reach_add(sheets, k, (a - 1) as nat, 1);
        lemma_walk_memoised(sheets, memo, k, (a - 1) as nat);
        lemma_reach_in_range(sheets, k, (a - 1) as nat);
        let x = reach(sheets, k, (a - 1) as nat)->0;
        lemma_reach_one(sheets, x);
    }
}

/// No sheet before `start`, all of them memoised, reaches a sheet without
/// a memoised key.
proof fn lemma_unmemoised_unreached(sheets: Seq<SheetIdentity>, memo: Seq<Option<String>>, start: int, x: int)
    requires
        memo.len() == sheets.len(),
        memo_closed(sheets, memo),
        0 <= start <= sheets.len(),
        forall|k: int| 0 <= k < start ==> (#[trigger] memo[k]) is Some,
        0 <= x < sheets.len(),
        memo[x] is None,
    ensures
        forall|k: int| 0 <= k < start ==> !walks_to(sheets, k, x),
{
    assert forall|k: int| 0 <= k < start implies !walks_to(sheets, k, x) by {
        if walks_to(sheets, k, x) {
            let a = choose|a: nat| reach(sheets, k, a) == Some(x);
            lemma_walk_memoised(sheets, memo, k, a);
        }
    }
}

/// The cycle entry of a sheet on the chain being resolved from `start`,
/// when no earlier sheet reaches its cycle: the first sheet on a cycle
/// along `start`'s chain.
proof fn lemma_entry_from_start(sheets: Seq<SheetIdentity>, start: int, i: int, c: int)
    requires
        0 <= start < sheets.len(),
        0 <= i < sheets.len(),
        on_cycle(sheets, c),
        walks_to(sheets, i, c),
        walks_to(sheets, start, c),
        forall|k: int| 0 <= k < start ==> !walks_to(sheets, k, c),
    ensures
        first_walker_from(sheets, cycle_rep(sheets, i), 0) == start,
{
    assert(on_cycle(sheets, c) && walks_to(sheets, i, c));
    let rep = cycle_rep(sheets, i);
    lemma_cycles_meet(sheets, i, rep, c);
    lemma_same_cycle(sheets, rep, c);
    assert forall|x: int| walks_to(sheets, x, rep) <==> walks_to(sheets, x, c) by {
        if walks_to(sheets, x, rep) {
            lemma_walks_trans(sheets, x, rep, c);
        }
        if walks_to(sheets, x, c) {
            lemma_walks_trans(sheets, x, c, rep);
        }
    }
    lemma_first_walker_is(sheets, c, 0, start);
    lemma_first_walker_same(sheets, rep, c, 0);
}

/// An import chain ends at one depth at most.
proof fn lemma_terminates_unique(sheets: Seq<SheetIdentity>, i: int, a: nat, b: nat)
    requires
        terminates(sheets, i, a),
        terminates(sheets, i, b),
    ensures
        a == b,
    decreases a,
{
    if a > 0 && b > 0 {
        lemma_terminates_unique(sheets, parent_sheet(sheets, i)->0, (a - 1) as nat, (b - 1) as nat);
    }
}

/// No sheet on a cycle of import parents has an ending chain.
proof fn lemma_cycle_never_terminates(sheets: Seq<SheetIdentity>, cycle: Seq<usize>, depth: nat)
    requires
        cycle.len() > 0,
        forall|k: int|
            0 <= k < cycle.len() - 1 ==> parent_sheet(sheets, #[trigger] cycle[k] as int) == Some(
                cycle[k + 1] as int,
            ),
        parent_sheet(sheets, cycle.last() as int) == Some(cycle[0] as int),
    ensures
        forall|k: int| 0 <= k < cycle.len() ==> !terminates(sheets, #[trigger] cycle[k] as int, depth),
    decreases depth,
{
    if depth > 0 {
        lemma_cycle_never_terminates(sheets, cycle, (depth - 1) as nat);
        assert forall|k: int| 0 <= k < cycle.len() implies !terminates(
            sheets,
            #[trigger] cycle[k] as int,
            depth,
        ) by {
            if k < cycle.len() - 1 {
                assert(!terminates(sheets, cycle[k + 1] as int, (depth - 1) as nat));
            } else {
                assert(!terminates(sheets, cycle[0] as int, (depth - 1) as nat));
            }
        }
    }
}

/// A sequence of distinct indices below `n` has at most `n` entries.
proof fn lemma_distinct_indices_bounded(indices: Seq<usize>, n: int)
    requires
        0 <= n,
        indices.no_duplicates(),
        forall|k: int| 0 <= k < indices.len() ==> indices[k] < n,
    ensures
        indices.len() <= n,
{
    let wide = Seq::new(indices.len(), |k: int| indices[k] as int);
    assert(wide.no_duplicates()) by {
        assert forall|a: int, b: int| 0 <= a < wide.len() && 0 <= b < wide.len() && a != b implies wide[a]
            != wide[b] by {
            assert(indices[a] != indices[b]);
        }
    }
    lemma_distinct_ints_bounded(wide, n);
}

/// A sequence of distinct integers in `0..n` has at most `n` entries.
proof fn lemma_distinct_ints_bounded(wide: Seq<int>, n: int)
    requires
        0 <= n,
        wide.no_duplicates(),
        forall|k: int| 0 <= k < wide.len() ==> 0 <= #[trigger] wide[k] < n,
    ensures
        wide.len() <= n,
{
    wide.unique_seq_to_set();
    vstd::set_lib::lemma_int_range(0, n);
    assert(wide.to_set().subset_of(vstd::set_lib::set_int_range(0, n))) by {
        assert forall|x: int| wide.to_set().contains(x) implies vstd::set_lib::set_int_range(
            0,
            n,
        ).contains(x) by {
            let k = choose|k: int| 0 <= k < wide.len() && wide[k] == x;
            assert(wide[k] < n);
        }
    }
    vstd::set_lib::lemma_len_subset(wide.to_set(), vstd::set_lib::set_int_range(0, n));
}

// ----- building keys ----------------------------------------------------

/// The one-character text of a decimal digit.
fn digit_text(d: u64) -> (text: &'static str)
    requires
        d < 10,
    ensures
        text@ == seq![digit_char(d as nat)],
{
    proof {
        reveal_strlit("0");
        reveal_strlit("1");
        reveal_strlit("2");
        reveal_strlit("3");
        reveal_strlit("4");
        reveal_strlit("5");
        reveal_strlit("6");
        reveal_strlit("7");
        reveal_strlit("8");
        reveal_strlit("9");
    }
    if d == 0 {
        "0"
    } else if d == 1 {
        "1"
    } else if d == 2 {
        "2"
    } else if d == 3 {
        "3"
    } else if d == 4 {
        "4"
    } else if d == 5 {
        "5"
    } else if d == 6 {
        "6"
    } else if d == 7 {
        "7"
    } else if d == 8 {
        "8"
    } else {
        "9"
    }
}

/// Append the decimal representation of `n`.
fn push_decimal(out: &mut String, n: u64)
    ensures
        final(out)@ == old(out)@ + decimal(n as nat),
    decreases n,
{
    if n >= 10 {
        push_decimal(out, n / 10);
    }
    let digit = digit_text(n % 10);
    out.append(digit);
    proof {
        if n >= 10 {
            assert(old(out)@ + decimal(n as nat) =~= old(out)@ + decimal((n / 10) as nat) + seq![
                digit_char((n % 10) as nat),
            ]);
        }
    }
}

/// The key of a sheet that is not imported.
fn root_key_text(sheet: &SheetIdentity) -> (key: String)
    ensures
        key@ == root_key(*sheet),
{
    let mut key = String::new();
    match sheet.owner_node {
        Some(node) => {
            key.append("node:");
            proof {
                reveal_strlit("node:");
            }
            push_decimal(&mut key, node);
        },
        None => {
            key.append("document:");
            proof {
                reveal_strlit("document:");
            }
            push_decimal(&mut key, sheet.document_order);
        },
    }
    key
}

/// The key of a sheet whose import chain cannot be resolved.
fn orphan_key_text(sheet_id: u64) -> (key: String)
    ensures
        key@ == orphan_key(sheet_id),
{
    let mut key = String::new();
    key.append("orphan-import:");
    proof {
        reveal_strlit("orphan-import:");
    }
    push_decimal(&mut key, sheet_id);
    key
}

/// The key of an imported sheet, from its parent's key.
fn import_key_text(parent_key: String, import_index: usize) -> (key: String)
    ensures
        key@ == parent_key@ + import_suffix(import_index),
{
    let mut key = parent_key;
    key.append("/import:");
    proof {
        reveal_strlit("/import:");
    }
    push_decimal(&mut key, import_index as u64);
    key
}

// ----- resolving keys ---------------------------------------------------

/// Every memoised sheet's parent has a memoised key too.
pub open spec fn memo_closed(sheets: Seq<SheetIdentity>, memo: Seq<Option<String>>) -> bool {
    forall|x: int|
        0 <= x < memo.len() && (#[trigger] memo[x]) is Some && parent_sheet(sheets, x) is Some ==> memo[parent_sheet(
            sheets,
            x,
        )->0] is Some
}

/// Every memoised sheet's parent has a memoised key too, or is one of the
/// sheets still being resolved.
pub open spec fn memo_closed_but(sheets: Seq<SheetIdentity>, memo: Seq<Option<String>>, active: Seq<usize>) -> bool {
    forall|x: int|
        0 <= x < memo.len() && (#[trigger] memo[x]) is Some && parent_sheet(sheets, x) is Some ==> memo[parent_sheet(
            sheets,
            x,
        )->0] is Some || active.contains(parent_sheet(sheets, x)->0 as usize)
}

/// Every memoised key fits its sheet.
pub open spec fn memo_fits(sheets: Seq<SheetIdentity>, memo: Seq<Option<String>>) -> bool {
    forall|j: int|
        0 <= j < memo.len() && (#[trigger] memo[j]) is Some ==> key_fits(sheets, j, memo[j]->0@)
}

/// The sheets whose keys are being resolved form an import path ending at
/// `next`: each one's parent is the one after it.
pub open spec fn active_path(sheets: Seq<SheetIdentity>, active: Seq<usize>, next: int) -> bool {
    &&& active.no_duplicates()
    &&& forall|k: int| 0 <= k < active.len() ==> (#[trigger] active[k]) < sheets.len()
    &&& forall|k: int|
        0 <= k < active.len() - 1 ==> parent_sheet(sheets, #[trigger] active[k] as int) == Some(
            active[k + 1] as int,
        )
    &&& active.len() > 0 ==> parent_sheet(sheets, active.last() as int) == Some(next)
}

/// The position of the last sheet with this id.
fn sheet_index_by_id(sheets: &Vec<SheetIdentity>, sheet_id: u64) -> (found: Option<usize>)
    ensures
        match found {
            Some(j) => last_index_of(sheets@, sheet_id) == Some(j as int),
            None => last_index_of(sheets@, sheet_id) is None,
        },
{
    let mut i: usize = sheets.len();
    assert(sheets@.subrange(0, i as int) =~= sheets@);
    while i > 0
        invariant
            i <= sheets@.len(),
            last_index_of(sheets@, sheet_id) == last_index_of(sheets@.subrange(0, i as int), sheet_id),
        decreases i,
    {
        assert(sheets@.subrange(0, i as int).drop_last() =~= sheets@.subrange(0, i - 1));
        if sheets[i - 1].sheet_id == sheet_id {
            return Some(i - 1);
        }
        i = i - 1;
    }
    assert(sheets@.subrange(0, 0) =~= Seq::<SheetIdentity>::empty());
    None
}

/// Whether `index` is already on the path being resolved.
fn path_contains(active: &Vec<usize>, index: usize) -> (found: bool)
    ensures
        found == active@.contains(index),
{
    let mut k: usize = 0;
    while k < active.len()
        invariant
            k <= active@.len(),
            forall|m: int| 0 <= m < k ==> active@[m] != index,
        decreases active@.len() - k,
    {
        if active[k] == index {
            return true;
        }
        k = k + 1;
    }
    false
}

/// Resolve the key of sheet `index`, memoising every key it settles.
fn resolve_key(
    index: usize,
    sheets: &Vec<SheetIdentity>,
    memo: &mut Vec<Option<String>>,
    active: &mut Vec<usize>,
    Ghost(start): Ghost<int>,
) -> (key: String)
    requires
        index < sheets@.len(),
        0 <= start < sheets@.len(),
        memo_closed(sheets@, old(memo)@),
        forall|k: int| 0 <= k < start ==> (#[trigger] old(memo)@[k]) is Some,
        forall|u: int|
            0 <= u < old(active)@.len() ==> reach(sheets@, start, u as nat) == Some(
                #[trigger] old(active)@[u] as int,
            ),
        reach(sheets@, start, old(active)@.len()) == Some(index as int),
        old(memo)@.len() == sheets@.len(),
        memo_fits(sheets@, old(memo)@),
        active_path(sheets@, old(active)@, index as int),
        forall|k: int| 0 <= k < old(active)@.len() ==> old(memo)@[#[trigger] old(active)@[k] as int] is None,
    ensures
        final(memo)@.len() == sheets@.len(),
        memo_fits(sheets@, final(memo)@),
        final(active)@ == old(active)@,
        memo_closed_but(sheets@, final(memo)@, old(active)@),
        forall|j: int|
            0 <= j < old(memo)@.len() && (#[trigger] old(memo)@[j]) is Some ==> final(memo)@[j]
                == old(memo)@[j],
        forall|k: int|
            0 <= k < old(active)@.len() ==> final(memo)@[#[trigger] old(active)@[k] as int] == old(
                memo,
            )@[old(active)@[k] as int],
        !old(active)@.contains(index) ==> final(memo)@[index as int] is Some,
        !old(active)@.contains(index) ==> key_fits(sheets@, index as int, key@),
        old(active)@.contains(index) ==> key@ == orphan_key(sheets@[index as int].sheet_id),
    decreases sheets@.len() - old(active)@.len(),
{
    let ghost all = sheets@;
    match &memo[index] {
        Some(known) => {
            return known.clone();
        },
        None => {},
    }
    if path_contains(active, index) {
        return orphan_key_text(sheets[index].sheet_id);
    }
    let ghost before = active@;
    let ghost memo_start = memo@;
    proof {
        lemma_distinct_indices_bounded(before.push(index), all.len() as int);
    }
    active.push(index);
    let key = match sheets[index].import_parent {
        None => {
            let key = root_key_text(&sheets[index]);
            proof {
                lemma_ends_here(all, index as int);
                assert(memo_closed_but(all, memo@, before.push(index)));
            }
            key
        },
        Some(rule) => match sheet_index_by_id(sheets, rule.sheet_id) {
            None => {
                let key = orphan_key_text(sheets[index].sheet_id);
                proof {
                    lemma_ends_here(all, index as int);
                    assert(memo_closed_but(all, memo@, before.push(index)));
                }
                key
            },
            Some(parent) => {
                proof {
                    lemma_last_index_in_range(all, rule.sheet_id);
                    assert(active@ == before.push(index));
                    assert forall|k: int| 0 <= k < active@.len() - 1 implies parent_sheet(
                        all,
                        #[trigger] active@[k] as int,
                    ) == Some(active@[k + 1] as int) by {
                        if k < before.len() - 1 {
                            assert(active@[k] == before[k] && active@[k + 1] == before[k + 1]);
                        } else {
                            assert(active@[k] == before.last() && active@[k + 1] == index);
                        }
                    }
                }
                proof {
                    assert forall|k: int| 0 <= k < active@.len() implies memo@[#[trigger] active@[k] as int] is None by {
                        if k < before.len() {
                            assert(active@[k] == before[k]);
                        }
                    }
                }
                let ghost path = active@;
                proof {
                    lemma_reach_add(all, start, before.len(), 1);
                    lemma_reach_one(all, index as int);
                    assert(reach(all, start, path.len()) == Some(parent as int));
                    assert forall|u: int| 0 <= u < path.len() implies reach(all, start, u as nat) == Some(
                        #[trigger] path[u] as int,
                    ) by {
                        if u < before.len() {
                            assert(path[u] == before[u]);
                        }
                    }
                }
                let parent_key = resolve_key(parent, sheets, memo, active, Ghost(start));
                let key = import_key_text(parent_key, rule.import_index);
                proof {
                    if path.contains(parent) {
                        let m = choose|m: int| 0 <= m < path.len() && path[m] == parent;
                        assert(path.last() == index);
                        lemma_closing_key_fits(all, memo_start, start, path, m, rule.import_index);
                    } else {
                        lemma_import_key_fits(
                            all,
                            memo_start,
                            start,
                            path,
                            index as int,
                            parent as int,
                            parent_key@,
                            rule.import_index,
                        );
                    }
                    assert(memo_closed_but(all, memo@, before.push(index)));
                    assert(parent_sheet(all, index as int) == Some(parent as int));
                    assert(!path.contains(parent) ==> memo@[parent as int] is Some);
                }
                key
            },
        },
    };
    active.pop();
    proof {
        assert(active@ =~= before);
    }
    let ghost memo_before = memo@;
    proof {
        assert(memo_closed_but(all, memo_before, before.push(index)));
        assert(parent_sheet(all, index as int) is Some ==> memo_before[parent_sheet(all, index as int)->0] is Some
            || before.push(index).contains(parent_sheet(all, index as int)->0 as usize));
    }
    memo.set(index, Some(key.clone()));
    proof {
        assert(memo_closed_but(all, memo_before, before.push(index)));
        assert forall|x: int|
            0 <= x < memo@.len() && (#[trigger] memo@[x]) is Some && parent_sheet(all, x) is Some implies memo@[parent_sheet(
                all,
                x,
            )->0] is Some || before.contains(parent_sheet(all, x)->0 as usize) by {
            let q = parent_sheet(all, x)->0;
            lemma_last_index_in_range(all, all[x].import_parent->0.sheet_id);
            if x != index {
                assert(memo_before[x] is Some);
            }
            assert(all.len() == sheets.len());
            if before.push(index).contains(q as usize) && q != index {
                let k = choose|k: int| 0 <= k < before.push(index).len() && before.push(index)[k] == q as usize;
                assert(before[k] == q as usize);
            }
        }
        assert forall|j: int| 0 <= j < memo@.len() && (#[trigger] memo@[j]) is Some implies key_fits(
            all,
            j,
            memo@[j]->0@,
        ) by {
            if j != index {
                assert(memo@[j] == memo_before[j]);
            }
        }
        assert forall|k: int| 0 <= k < before.len() implies memo@[#[trigger] before[k] as int] == memo_start[before[k] as int] by {
            assert(before[k] != index);
            assert(before.push(index)[k] == before[k]);
        }
    }
    key
}

/// The tail of the resolving path from the repeated sheet closes a cycle.
proof fn lemma_cycle_from_path(sheets: Seq<SheetIdentity>, active: Seq<usize>, next: int, m: int)
    requires
        active_path(sheets, active, next),
        0 <= m < active.len(),
        active[m] == next,
    ensures
        ({
            let cycle = active.subrange(m, active.len() as int);
            &&& cycle.len() > 0
            &&& forall|k: int|
                0 <= k < cycle.len() - 1 ==> parent_sheet(sheets, #[trigger] cycle[k] as int)
                    == Some(cycle[k + 1] as int)
            &&& parent_sheet(sheets, cycle.last() as int) == Some(cycle[0] as int)
        }),
{
    let cycle = active.subrange(m, active.len() as int);
    assert forall|k: int| 0 <= k < cycle.len() - 1 implies parent_sheet(
        sheets,
        #[trigger] cycle[k] as int,
    ) == Some(cycle[k + 1] as int) by {
        assert(cycle[k] == active[m + k] && cycle[k + 1] == active[m + k + 1]);
    }
}

/// A sheet without a parent in the list ends its chain at once.
proof fn lemma_ends_here(sheets: Seq<SheetIdentity>, i: int)
    requires
        parent_sheet(sheets, i) is None,
    ensures
        resolved_key(sheets, i) == Some(key_at(sheets, i, 0)),
{
    assert(terminates(sheets, i, 0));
    let depth = choose|depth: nat| terminates(sheets, i, depth);
    lemma_terminates_unique(sheets, i, depth, 0);
}

/// The first walker from `k` lies between `k` and any sheet from `k` on
/// whose chain reaches `c`, and its own chain reaches `c`.
proof fn lemma_first_walker_found(sheets: Seq<SheetIdentity>, c: int, k: int, x: int)
    requires
        0 <= k <= x < sheets.len(),
        walks_to(sheets, x, c),
    ensures
        k <= first_walker_from(sheets, c, k) <= x,
        walks_to(sheets, first_walker_from(sheets, c, k), c),
    decreases x - k,
{
    if !walks_to(sheets, k, c) {
        lemma_first_walker_found(sheets, c, k + 1, x);
    }
}

/// A sheet whose chain never ends reaches its cycle entry, which lies on a
/// cycle.
proof fn lemma_entry_on_cycle(sheets: Seq<SheetIdentity>, i: int)
    requires
        0 <= i < sheets.len(),
        forall|d: nat| !terminates(sheets, i, d),
    ensures
        on_cycle(sheets, cycle_entry(sheets, i)),
        walks_to(sheets, i, cycle_entry(sheets, i)),
{
    lemma_reaches_cycle(sheets, i);
    let rep = cycle_rep(sheets, i);
    lemma_first_walker_found(sheets, rep, 0, i);
    let j = first_walker_from(sheets, rep, 0);
    let a = choose|a: nat| reach(sheets, j, a) == Some(rep);
    lemma_entry_step_exists(sheets, j, a);
    let t = choose|t: nat| is_entry_step(sheets, j, t);
    let e = reach(sheets, j, t)->0;
    assert(walks_to(sheets, j, e));
    lemma_cycles_meet(sheets, j, rep, e);
    lemma_walks_trans(sheets, i, rep, e);
}

/// A chain that reaches a sheet on a cycle arrives there from within the
/// cycle, and so has a first such arrival.
proof fn lemma_first_arrival_of(sheets: Seq<SheetIdentity>, i: int, e: int)
    requires
        on_cycle(sheets, e),
        walks_to(sheets, i, e),
    ensures
        exists|n: nat| is_first_arrival(sheets, i, e, n),
{
    let a = choose|a: nat| reach(sheets, i, a) == Some(e);
    let len = choose|n: nat| n >= 1 && reach(sheets, e, n) == Some(e);
    lemma_reach_add(sheets, e, (len - 1) as nat, 1);
    let y = reach(sheets, e, (len - 1) as nat)->0;
    assert(walks_to(sheets, e, y));
    lemma_same_cycle(sheets, e, y);
    lemma_reach_add(sheets, i, a, len);
    lemma_reach_add(sheets, i, a, (len - 1) as nat);
    assert((a + len - 1) as nat == a + (len - 1) as nat);
    assert(arrives(sheets, i, e, a + len));
    lemma_first_arrival_exists(sheets, i, e, a + len);
}

/// One step up, the chain is the parent's chain.
proof fn lemma_reach_step(sheets: Seq<SheetIdentity>, i: int, p: int, n: nat)
    requires
        parent_sheet(sheets, i) == Some(p),
    ensures
        reach(sheets, i, n + 1) == reach(sheets, p, n),
{
    assert((n + 1 - 1) as nat == n);
}

/// An imported sheet's key fits when its parent's key does, for a sheet
/// whose parent is not on the path being resolved from `start`.
proof fn lemma_import_key_fits(
    sheets: Seq<SheetIdentity>,
    memo: Seq<Option<String>>,
    start: int,
    path: Seq<usize>,
    i: int,
    parent: int,
    parent_key: Seq<char>,
    import_index: usize,
)
    requires
        0 <= i < sheets.len(),
        sheets[i].import_parent matches Some(rule) && rule.import_index == import_index,
        parent_sheet(sheets, i) == Some(parent),
        key_fits(sheets, parent, parent_key),
        0 <= start < sheets.len(),
        path.len() > 0,
        path.last() == i,
        forall|u: int| 0 <= u < path.len() ==> reach(sheets, start, u as nat) == Some(#[trigger] path[u] as int),
        !path.contains(parent as usize),
        memo.len() == sheets.len(),
        memo_closed(sheets, memo),
        forall|k: int| 0 <= k < start ==> (#[trigger] memo[k]) is Some,
        memo[i] is None,
    ensures
        key_fits(sheets, i, parent_key + import_suffix(import_index)),
{
    let key = parent_key + import_suffix(import_index);
    lemma_last_index_in_range(sheets, sheets[i].import_parent->0.sheet_id);
    if exists|depth: nat| terminates(sheets, parent, depth) {
        let d = choose|depth: nat| terminates(sheets, parent, depth);
        assert(terminates(sheets, i, d + 1));
        let e = choose|depth: nat| terminates(sheets, i, depth);
        lemma_terminates_unique(sheets, i, e, d + 1);
        assert(key_at(sheets, i, d + 1) == key_at(sheets, parent, d) + import_suffix(import_index));
    } else {
        assert forall|depth: nat| !terminates(sheets, i, depth) by {
            if depth > 0 && terminates(sheets, i, depth) {
                assert(terminates(sheets, parent, (depth - 1) as nat));
            }
        }
        lemma_cycle_key_step(sheets, memo, start, path, i, parent);
    }
}

/// The cycle key of a sheet whose parent is off the resolving path is the
/// parent's cycle key followed by the sheet's import suffix.
proof fn lemma_cycle_key_step(
    sheets: Seq<SheetIdentity>,
    memo: Seq<Option<String>>,
    start: int,
    path: Seq<usize>,
    i: int,
    p: int,
)
    requires
        0 <= i < sheets.len(),
        0 <= p < sheets.len(),
        parent_sheet(sheets, i) == Some(p),
        sheets[i].import_parent is Some,
        forall|d: nat| !terminates(sheets, i, d),
        forall|d: nat| !terminates(sheets, p, d),
        0 <= start < sheets.len(),
        path.len() > 0,
        path.last() == i,
        forall|u: int| 0 <= u < path.len() ==> reach(sheets, start, u as nat) == Some(#[trigger] path[u] as int),
        !path.contains(p as usize),
        memo.len() == sheets.len(),
        memo_closed(sheets, memo),
        forall|k: int| 0 <= k < start ==> (#[trigger] memo[k]) is Some,
        memo[i] is None,
    ensures
        cycle_key_of(sheets, i) == cycle_key_of(sheets, p) + import_suffix(
            sheets[i].import_parent->0.import_index,
        ),
{
    lemma_reaches_cycle(sheets, i);
    lemma_reaches_cycle(sheets, p);
    let rep_i = cycle_rep(sheets, i);
    let rep_p = cycle_rep(sheets, p);
    let ap = choose|a: nat| reach(sheets, p, a) == Some(rep_p);
    lemma_reach_step(sheets, i, p, ap);
    assert(walks_to(sheets, i, rep_p));
    lemma_cycles_meet(sheets, i, rep_i, rep_p);
    lemma_same_cycle(sheets, rep_i, rep_p);
    assert forall|x: int| walks_to(sheets, x, rep_i) <==> walks_to(sheets, x, rep_p) by {
        if walks_to(sheets, x, rep_i) {
            lemma_walks_trans(sheets, x, rep_i, rep_p);
        }
        if walks_to(sheets, x, rep_p) {
            lemma_walks_trans(sheets, x, rep_p, rep_i);
        }
    }
    lemma_first_walker_same(sheets, rep_i, rep_p, 0);
    let e = cycle_entry(sheets, i);
    assert(cycle_entry(sheets, p) == e);
    lemma_entry_on_cycle(sheets, i);
    lemma_entry_on_cycle(sheets, p);
    lemma_first_arrival_of(sheets, i, e);
    lemma_first_arrival_of(sheets, p, e);
    let ni = choose|n: nat| is_first_arrival(sheets, i, e, n);
    let np = choose|n: nat| is_first_arrival(sheets, p, e, n);
    lemma_reach_step(sheets, i, p, np);
    lemma_reach_step(sheets, i, p, (np - 1) as nat);
    assert(arrives(sheets, i, e, np + 1));
    if ni == 1 {
        lemma_reach_step(sheets, i, p, 0);
        assert(p == e);
        assert(on_cycle(sheets, i)) by {
            assert(reach(sheets, i, 0) == Some(i));
        }
        let last = path.len() - 1;
        assert(reach(sheets, start, last as nat) == Some(i));
        assert(walks_to(sheets, start, i));
        assert(walks_to(sheets, i, i)) by {
            assert(reach(sheets, i, 0) == Some(i));
        }
        lemma_unmemoised_unreached(sheets, memo, start, i);
        lemma_entry_from_start(sheets, start, i, i);
        lemma_entry_step_exists(sheets, start, last as nat);
        let t = choose|t: nat| t <= last && is_entry_step(sheets, start, t);
        let t2 = choose|t: nat| is_entry_step(sheets, start, t);
        lemma_entry_step_unique(sheets, start, t, t2);
        assert(reach(sheets, start, t) == Some(path[t as int] as int));
        assert(path.contains(p as usize));
    } else {
        lemma_reach_step(sheets, i, p, (ni - 1) as nat);
        lemma_reach_step(sheets, i, p, (ni - 2) as nat);
        assert((ni - 1) as nat + 1 == ni);
        assert((ni - 2) as nat + 1 == (ni - 1) as nat);
        assert(arrives(sheets, p, e, (ni - 1) as nat));
        if np + 1 < ni {
            assert(!arrives(sheets, i, e, np + 1));
        }
        if ((ni - 1) as nat) < np {
            assert(!arrives(sheets, p, e, (ni - 1) as nat));
        }
        assert(ni == np + 1);
        assert(chain_key(sheets, i, np + 1, orphan_key(sheets[e].sheet_id)) == chain_key(
            sheets,
            p,
            np,
            orphan_key(sheets[e].sheet_id),
        ) + import_suffix(sheets[i].import_parent->0.import_index));
    }
}

/// A sheet whose parent is already on the path being resolved closes a
/// cycle that its own chain entered at that parent: its key is the parent's
/// orphan key followed by its own import suffix.
proof fn lemma_closing_key_fits(
    sheets: Seq<SheetIdentity>,
    memo: Seq<Option<String>>,
    start: int,
    path: Seq<usize>,
    m: int,
    import_index: usize,
)
    requires
        active_path(sheets, path, path[m] as int),
        0 <= m < path.len(),
        sheets[path.last() as int].import_parent matches Some(rule) && rule.import_index == import_index,
        0 <= start < sheets.len(),
        forall|u: int| 0 <= u < path.len() ==> reach(sheets, start, u as nat) == Some(#[trigger] path[u] as int),
        memo.len() == sheets.len(),
        memo_closed(sheets, memo),
        forall|k: int| 0 <= k < start ==> (#[trigger] memo[k]) is Some,
        memo[path.last() as int] is None,
    ensures
        key_fits(
            sheets,
            path.last() as int,
            orphan_key(sheets[path[m] as int].sheet_id) + import_suffix(import_index),
        ),
{
    let i = path.last() as int;
    let e = path[m] as int;
    let last = path.len() - 1;
    lemma_cycle_from_path(sheets, path, e, m);
    let cycle = path.subrange(m, path.len() as int);
    lemma_cycle_members(sheets, cycle, cycle.len() - 1);
    lemma_cycle_members(sheets, cycle, 0);
    assert(cycle[cycle.len() - 1] == path.last());
    assert forall|depth: nat| !terminates(sheets, i, depth) by {
        lemma_cycle_never_terminates(sheets, cycle, depth);
    }
    assert(reach(sheets, start, last as nat) == Some(i));
    assert(walks_to(sheets, start, i));
    assert(walks_to(sheets, i, i)) by {
        assert(reach(sheets, i, 0) == Some(i));
    }
    lemma_unmemoised_unreached(sheets, memo, start, i);
    lemma_entry_from_start(sheets, start, i, i);
    lemma_reach_add(sheets, start, last as nat, 1);
    lemma_reach_one(sheets, i);
    assert(reach(sheets, start, path.len() as nat) == Some(e));
    assert forall|u: nat| u < m implies !on_cycle(sheets, #[trigger] reach(sheets, start, u)->0) by {
        assert(reach(sheets, start, u) == Some(path[u as int] as int));
        lemma_not_on_cycle_before(sheets, start, path, m, u as int);
    }
    assert(reach(sheets, start, m as nat) == Some(e));
    assert(is_entry_step(sheets, start, m as nat));
    let t = choose|t: nat| is_entry_step(sheets, start, t);
    lemma_entry_step_unique(sheets, start, m as nat, t);
    assert(cycle_entry(sheets, i) == e);
    assert(reach(sheets, i, 0) == Some(i));
    assert(arrives(sheets, i, e, 1));
    assert(is_first_arrival(sheets, i, e, 1));
    let n = choose|n: nat| is_first_arrival(sheets, i, e, n);
    lemma_first_arrival_unique(sheets, i, e, n, 1);
    assert(chain_key(sheets, i, 1, orphan_key(sheets[e].sheet_id)) == chain_key(
        sheets,
        e,
        0,
        orphan_key(sheets[e].sheet_id),
    ) + import_suffix(import_index));
}

/// The CSSOM key of every sheet, in the order given. Each key is the one its
/// import chain resolves to. A sheet whose chain runs into a cycle gets the
/// orphan key of the cycle's entry (the first cycle sheet along the chain of
/// the first listed sheet that reaches the cycle), followed by the import
/// suffixes of the sheets walked until the walk comes back to the entry from
/// within the cycle.
pub fn cssom_keys(sheets: &Vec<SheetIdentity>) -> (keys: Vec<String>)
    ensures
        keys@.len() == sheets@.len(),
        forall|i: int| 0 <= i < sheets@.len() ==> key_fits(sheets@, i, (#[trigger] keys@[i])@),
{
    let n: usize = sheets.len();
    let mut memo: Vec<Option<String>> = Vec::new();
    for i in 0..n
        invariant
            memo@.len() == i,
            forall|j: int| 0 <= j < i ==> (#[trigger] memo@[j]) is None,
    {
        memo.push(None);
    }
    for index in 0..n
        invariant
            n == sheets@.len(),
            memo@.len() == n,
            memo_fits(sheets@, memo@),
            memo_closed(sheets@, memo@),
            forall|j: int| 0 <= j < index ==> (#[trigger] memo@[j]) is Some,
    {
        let mut active: Vec<usize> = Vec::new();
        let ghost memo_before = memo@;
        assert(!active@.contains(index));
        assert(reach(sheets@, index as int, 0) == Some(index as int));
        let _ = resolve_key(index, sheets, &mut memo, &mut active, Ghost(index as int));
        assert(memo_closed(sheets@, memo@)) by {
            assert(active@ == Seq::<usize>::empty());
        }
        assert forall|j: int| 0 <= j <= index implies (#[trigger] memo@[j]) is Some by {
            if j < index {
                assert(memo_before[j] is Some);
            }
        }
    }
    let mut keys: Vec<String> = Vec::new();
    for i in 0..n
        invariant
            n == sheets@.len(),
            memo@.len() == n,
            memo_fits(sheets@, memo@),
            forall|j: int| 0 <= j < n ==> (#[trigger] memo@[j]) is Some,
            keys@.len() == i,
            forall|j: int| 0 <= j < i ==> key_fits(sheets@, j, (#[trigger] keys@[j])@),
    {
        match &memo[i] {
            Some(key) => keys.push(key.clone()),
            None => keys.push(orphan_key_text(sheets[i].sheet_id)),
        }
    }
    keys
}

// ----- retained author sheets -------------------------------------------

/// Who brought a sheet into the document.
#[derive(Clone, Copy, Debug, PartialEq, Eq, Structural)]
pub enum StylesheetOwner {
    /// A `<style>` element.
    Inline,
    /// A `<link rel=stylesheet>` element.
    Link,
    /// An `@import` rule of another sheet.
    Imported,
}

/// A retained `@import` rule as resolved for its sheet.
#[derive(Debug)]
pub struct ResolvedImportRule {
    pub authored_url: String,
    pub media: Option<String>,
    /// The sheet the rule brought in, once fetched.
    pub child_sheet_id: Option<u64>,
}

/// One sheet of the document's freshly resolved resource set.
#[derive(Debug)]
pub struct ResolvedStylesheet {
    pub sheet_id: u64,
    pub owner: StylesheetOwner,
    pub owner_node: Option<u64>,
    pub source_url: Option<String>,
    pub requested_url: Option<String>,
    pub content_type: Option<String>,
    pub media: Option<String>,
    pub imports: Vec<ResolvedImportRule>,
    pub import_parent: Option<StylesheetImportParent>,
    pub text: String,
    pub document_order: u64,
}

/// What a resolved sheet's CSSOM key depends on.
pub open spec fn identity_of(sheet: ResolvedStylesheet) -> SheetIdentity {
    SheetIdentity {
        sheet_id: sheet.sheet_id,
        owner_node: sheet.owner_node,
        document_order: sheet.document_order,
        import_parent: sheet.import_parent,
    }
}

/// The text of an optional string.
pub open spec fn text_of(value: Option<String>) -> Option<Seq<char>> {
    match value {
        Some(text) => Some(text@),
        None => None,
    }
}

/// One retained author sheet: its parsed form `P` together with the
/// document ownership that introduced it and its CSSOM key.
#[derive(Debug)]
pub struct AuthorStylesheet<P> {
    pub sheet_id: u64,
    pub owner: StylesheetOwner,
    pub owner_node: Option<u64>,
    pub source_url: Option<String>,
    pub requested_url: Option<String>,
    pub content_type: Option<String>,
    pub media: Option<String>,
    pub imports: Vec<ResolvedImportRule>,
    pub import_parent: Option<StylesheetImportParent>,
    pub cssom_key: String,
    pub authored_text: String,
    pub stylesheet: P,
}

/// A retained direct sheet may keep its parsed CSSOM object for a fresh
/// source when neither is imported and the ownership, identity, media,
/// response metadata and source text are all unchanged.
pub open spec fn can_retain<P>(sheet: AuthorStylesheet<P>, source: ResolvedStylesheet) -> bool {
    &&& sheet.owner != StylesheetOwner::Imported
    &&& source.owner != StylesheetOwner::Imported
    &&& sheet.owner == source.owner
    &&& sheet.owner_node == source.owner_node
    &&& text_of(sheet.source_url) == text_of(source.source_url)
    &&& text_of(sheet.requested_url) == text_of(source.requested_url)
    &&& text_of(sheet.content_type) == text_of(source.content_type)
    &&& text_of(sheet.media) == text_of(source.media)
    &&& sheet.authored_text@ == source.text@
}

/// Whether two optional strings hold the same text.
fn same_text(a: &Option<String>, b: &Option<String>) -> (same: bool)
    ensures
        same == (text_of(*a) == text_of(*b)),
{
    match (a, b) {
        (Some(x), Some(y)) => *x == *y,
        (None, None) => true,
        _ => false,
    }
}

impl<P> AuthorStylesheet<P> {
    /// A fresh retained sheet for a resolved source, with its key and its
    /// parsed form.
    pub fn from_resolved(source: ResolvedStylesheet, cssom_key: String, stylesheet: P) -> (sheet: Self)
        ensures
            sheet.sheet_id == source.sheet_id,
            sheet.owner == source.owner,
            sheet.owner_node == source.owner_node,
            sheet.source_url == source.source_url,
            sheet.requested_url == source.requested_url,
            sheet.content_type == source.content_type,
            sheet.media == source.media,
            sheet.imports == source.imports,
            sheet.import_parent == source.import_parent,
            sheet.cssom_key == cssom_key,
            sheet.authored_text == source.text,
            sheet.stylesheet == stylesheet,
    {
        AuthorStylesheet {
            sheet_id: source.sheet_id,
            owner: source.owner,
            owner_node: source.owner_node,
            source_url: source.source_url,
            requested_url: source.requested_url,
            content_type: source.content_type,
            media: source.media,
            imports: source.imports,
            import_parent: source.import_parent,
            cssom_key,
            authored_text: source.text,
            stylesheet,
        }
    }

    pub fn owner(&self) -> (owner: StylesheetOwner)
        ensures
            owner == self.owner,
    {
        self.owner
    }

    /// The stable document-element identity of a direct sheet.
    pub fn owner_node(&self) -> (node: Option<u64>)
        ensures
            node == self.owner_node,
    {
        self.owner_node
    }

    /// The sheet's opaque CSSOM identity.
    pub fn cssom_key(&self) -> (key: &str)
        ensures
            key@ == self.cssom_key@,
    {
        self.cssom_key.as_str()
    }

    /// Whether this sheet may keep its parsed CSSOM object for `source`.
    pub fn can_retain_live_cssom(&self, source: &ResolvedStylesheet) -> (retain: bool)
        ensures
            retain == can_retain(*self, *source),
    {
        self.owner != StylesheetOwner::Imported && source.owner != StylesheetOwner::Imported
            && self.owner == source.owner && self.owner_node == source.owner_node && same_text(
            &self.source_url,
            &source.source_url,
        ) && same_text(&self.requested_url, &source.requested_url) && same_text(
            &self.content_type,
            &source.content_type,
        ) && same_text(&self.media, &source.media) && self.authored_text == source.text
    }

    /// Take the resource graph of a fresh source while keeping the parsed
    /// object and everything that made it retainable.
    pub fn refresh_resource_graph(&mut self, source: ResolvedStylesheet, cssom_key: String)
        ensures
            final(self).sheet_id == source.sheet_id,
            final(self).imports == source.imports,
            final(self).import_parent == source.import_parent,
            final(self).cssom_key == cssom_key,
            final(self).owner == old(self).owner,
            final(self).owner_node == old(self).owner_node,
            final(self).source_url == old(self).source_url,
            final(self).requested_url == old(self).requested_url,
            final(self).content_type == old(self).content_type,
            final(self).media == old(self).media,
            final(self).authored_text == old(self).authored_text,
            final(self).stylesheet == old(self).stylesheet,
    {
        self.sheet_id = source.sheet_id;
        self.imports = source.imports;
        self.import_parent = source.import_parent;
        self.cssom_key = cssom_key;
    }
}

/// Whether `plan` already hands previous sheet `j` to a source.
pub open spec fn taken(plan: Seq<Option<int>>, j: int) -> bool {
    exists|k: int| 0 <= k < plan.len() && plan[k] == Some(j)
}

/// The first previous sheet at or after `from`, not taken by `plan`, that
/// `source` can retain.
pub open spec fn first_retainable<P>(
    previous: Seq<AuthorStylesheet<P>>,
    source: ResolvedStylesheet,
    plan: Seq<Option<int>>,
    from: int,
) -> Option<int>
    decreases previous.len() - from,
{
    if from < 0 || from >= previous.len() {
        None
    } else if can_retain(previous[from], source) && !taken(plan, from) {
        Some(from)
    } else {
        first_retainable(previous, source, plan, from + 1)
    }
}

/// Which previous sheet each fresh source keeps: sources in order each take
/// the first previous sheet they can retain that no earlier source took.
pub open spec fn retention<P>(
    previous: Seq<AuthorStylesheet<P>>,
    sources: Seq<ResolvedStylesheet>,
) -> Seq<Option<int>>
    decreases sources.len(),
{
    if sources.len() == 0 {
        Seq::empty()
    } else {
        let plan = retention(previous, sources.drop_last());
        plan.push(first_retainable(previous, sources.last(), plan, 0))
    }
}

/// The plan for the first `n` sources is a prefix of the plan for all.
proof fn lemma_retention_prefix<P>(
    previous: Seq<AuthorStylesheet<P>>,
    sources: Seq<ResolvedStylesheet>,
    n: int,
)
    requires
        0 <= n <= sources.len(),
    ensures
        retention(previous, sources).len() == sources.len(),
        retention(previous, sources.subrange(0, n)) =~= retention(previous, sources).subrange(0, n),
    decreases sources.len(),
{
    if sources.len() > 0 {
        lemma_retention_prefix(previous, sources.drop_last(), if n == sources.len() {
            sources.len() - 1
        } else {
            n
        });
        if n == sources.len() {
            assert(sources.subrange(0, n) =~= sources);
        } else {
            assert(sources.drop_last().subrange(0, n) =~= sources.subrange(0, n));
        }
    } else {
        assert(sources.subrange(0, n) =~= sources);
    }
}

/// A retained position lies among the previous sheets.
proof fn lemma_retention_in_range<P>(
    previous: Seq<AuthorStylesheet<P>>,
    sources: Seq<ResolvedStylesheet>,
    b: int,
)
    requires
        0 <= b < sources.len(),
    ensures
        retention(previous, sources)[b] matches Some(j) ==> 0 <= j < previous.len() && can_retain(
            previous[j],
            sources[b],
        ),
{
    lemma_retention_prefix(previous, sources, b + 1);
    lemma_retention_prefix(previous, sources, b);
    let plan = retention(previous, sources.subrange(0, b));
    assert(sources.subrange(0, b + 1).drop_last() =~= sources.subrange(0, b));
    assert(sources.subrange(0, b + 1).last() == sources[b]);
    lemma_first_retainable(previous, sources[b], plan, 0);
    let found = first_retainable(previous, sources[b], plan, 0);
    assert(retention(previous, sources.subrange(0, b + 1)) == plan.push(found));
    assert(retention(previous, sources.subrange(0, b + 1))[b] == found);
    assert(retention(previous, sources).subrange(0, b + 1)[b] == retention(previous, sources)[b]);
}

/// With no previous sheets, nothing is retained.
proof fn lemma_nothing_to_retain<P>(sources: Seq<ResolvedStylesheet>)
    ensures
        retention(Seq::<AuthorStylesheet<P>>::empty(), sources).len() == sources.len(),
        forall|i: int|
            0 <= i < sources.len() ==> (#[trigger] retention(
                Seq::<AuthorStylesheet<P>>::empty(),
                sources,
            )[i]) is None,
    decreases sources.len(),
{
    if sources.len() > 0 {
        lemma_nothing_to_retain::<P>(sources.drop_last());
    }
}

/// Every previous sheet is kept by one fresh source at most, and only by a
/// source that can retain it.
pub proof fn law_retention_is_one_to_one<P>(
    previous: Seq<AuthorStylesheet<P>>,
    sources: Seq<ResolvedStylesheet>,
    a: int,
    b: int,
)
    requires
        0 <= a < b < sources.len(),
    ensures
        retention(previous, sources)[b] is Some ==> retention(previous, sources)[a]
            != retention(previous, sources)[b],
        retention(previous, sources)[b] matches Some(j) ==> 0 <= j < previous.len() && can_retain(
            previous[j],
            sources[b],
        ),
{
    lemma_retention_prefix(previous, sources, b + 1);
    lemma_retention_prefix(previous, sources, b);
    let plan = retention(previous, sources.subrange(0, b));
    assert(sources.subrange(0, b + 1).drop_last() =~= sources.subrange(0, b));
    assert(sources.subrange(0, b + 1).last() == sources[b]);
    lemma_first_retainable(previous, sources[b], plan, 0);
    let found = first_retainable(previous, sources[b], plan, 0);
    assert(retention(previous, sources.subrange(0, b + 1)) == plan.push(found));
    assert(retention(previous, sources.subrange(0, b + 1))[b] == found);
    assert(retention(previous, sources).subrange(0, b + 1)[b] == retention(previous, sources)[b]);
    assert(plan[a] == retention(previous, sources)[a]);
    if found is Some {
        assert(!taken(plan, found->0));
    }
}

/// What the first-fit search finds.
proof fn lemma_first_retainable<P>(
    previous: Seq<AuthorStylesheet<P>>,
    source: ResolvedStylesheet,
    plan: Seq<Option<int>>,
    from: int,
)
    requires
        0 <= from,
    ensures
        first_retainable(previous, source, plan, from) matches Some(j) ==> from <= j
            < previous.len() && can_retain(previous[j], source) && !taken(plan, j),
    decreases previous.len() - from,
{
    if from < previous.len() && !(can_retain(previous[from], source) && !taken(plan, from)) {
        lemma_first_retainable(previous, source, plan, from + 1);
    }
}

/// A position as a mathematical integer.
pub open spec fn widen(position: Option<usize>) -> Option<int> {
    match position {
        Some(j) => Some(j as int),
        None => None,
    }
}

/// A plan's positions as mathematical integers.
pub open spec fn widened(plan: Seq<Option<usize>>) -> Seq<Option<int>> {
    plan.map_values(|position: Option<usize>| widen(position))
}

/// The retention plan for a fresh resource set, as positions into the
/// previous sheets.
pub fn retention_plan<P>(previous: &Vec<AuthorStylesheet<P>>, sources: &Vec<ResolvedStylesheet>) -> (plan: Vec<Option<usize>>)
    ensures
        plan@.len() == sources@.len(),
        forall|i: int|
            0 <= i < sources@.len() ==> (match #[trigger] plan@[i] {
                Some(j) => retention(previous@, sources@)[i] == Some(j as int),
                None => retention(previous@, sources@)[i] is None,
            }),
{
    let mut plan: Vec<Option<usize>> = Vec::new();
    for i in 0..sources.len()
        invariant
            plan@.len() == i,
            i <= sources@.len(),
            widened(plan@) =~= retention(previous@, sources@.subrange(0, i as int)),
    {
        let ghost before = widened(plan@);
        let mut found: Option<usize> = None;
        let mut j: usize = 0;
        while j < previous.len()
            invariant
                i < sources@.len(),
                widened(plan@) == before,
                j <= previous@.len(),
                found is None ==> first_retainable(previous@, sources@[i as int], before, 0)
                    == first_retainable(previous@, sources@[i as int], before, j as int),
                found matches Some(f) ==> first_retainable(previous@, sources@[i as int], before, 0)
                    == Some(f as int),
            decreases previous@.len() - j,
        {
            if found.is_none() && previous[j].can_retain_live_cssom(&sources[i]) {
                let mut used = false;
                let mut k: usize = 0;
                while k < plan.len()
                    invariant
                        k <= plan@.len(),
                        widened(plan@) == before,
                        used == exists|m: int| 0 <= m < k && before[m] == Some(j as int),
                    decreases plan@.len() - k,
                {
                    proof {
                        assert(before[k as int] == widen(plan@[k as int]));
                    }
                    let ghost was_used = used;
                    match plan[k] {
                        Some(t) => {
                            if t == j {
                                used = true;
                            }
                        },
                        None => {},
                    }
                    proof {
                        if before[k as int] == Some(j as int) {
                            assert(used);
                        } else {
                            assert(used == was_used);
                            if was_used {
                                let m = choose|m: int| 0 <= m < k && before[m] == Some(j as int);
                                assert(0 <= m < k + 1 && before[m] == Some(j as int));
                            }
                        }
                    }
                    k = k + 1;
                }
                if !used {
                    found = Some(j);
                }
            }
            j = j + 1;
        }
        proof {
            assert(widen(found) == first_retainable(previous@, sources@[i as int], before, 0));
        }
        plan.push(found);
        proof {
            let src = sources@.subrange(0, i + 1);
            assert(src.drop_last() =~= sources@.subrange(0, i as int));
            assert(src.last() == sources@[i as int]);
            assert(widened(plan@) =~= before.push(widen(found)));
            assert(first_retainable(previous@, sources@[i as int], before, previous@.len() as int) is None);
            assert(retention(previous@, src) == before.push(
                first_retainable(previous@, sources@[i as int], before, 0),
            ));
        }
    }
    proof {
        assert(sources@.subrange(0, sources@.len() as int) =~= sources@);
        assert forall|i: int| 0 <= i < sources@.len() implies (match #[trigger] plan@[i] {
            Some(j) => retention(previous@, sources@)[i] == Some(j as int),
            None => retention(previous@, sources@)[i] is None,
        }) by {
            assert(widened(plan@)[i] == widen(plan@[i]));
        }
    }
    plan
}

// ----- the CSSOM view of a style set -------------------------------------

/// CSSOM metadata for a retained `@import` rule.
#[derive(Clone, Debug, PartialEq, Eq)]
pub struct CssomImportRule {
    pub href: String,
    pub media: Option<String>,
    pub child_sheet_key: Option<String>,
}

/// The parent import rule for an imported CSSOM stylesheet.
#[derive(Clone, Debug, PartialEq, Eq)]
pub struct CssomImportOwner {
    pub parent_sheet_key: String,
    pub import_index: usize,
}

/// The rule list of a parsed sheet, as the cascade engine keeps it. Each
/// mutation is a function of the list and its arguments: what it makes of
/// them is named by `inserted`, `deleted` and `with_media`, which each
/// implementation of the list defines for itself.
pub trait CssomRuleList: Sized {
    type Error;

    /// The list after `insertRule` of `rule` at `index`, and its answer: the
    /// position the rule landed at, or the refusal.
    spec fn inserted(&self, rule: &str, index: usize) -> (Self, Result<usize, Self::Error>);

    /// The list after `deleteRule` at `index`, and its answer.
    spec fn deleted(&self, index: usize) -> (Self, Result<(), Self::Error>);

    /// The list re-evaluated under a `media` attribute.
    spec fn with_media(&self, media: &String) -> Self;

    /// CSSOM `insertRule`; the position the rule landed at.
    fn insert_rule(&mut self, rule: &str, index: usize) -> (result: Result<usize, Self::Error>)
        ensures
            (*final(self), result) == old(self).inserted(rule, index),
    ;

    /// CSSOM `deleteRule`.
    fn delete_rule(&mut self, index: usize) -> (result: Result<(), Self::Error>)
        ensures
            (*final(self), result) == old(self).deleted(index),
    ;

    /// Re-evaluate the sheet under its owner's `media` attribute.
    fn apply_document_media(&mut self, media: &String)
        ensures
            *final(self) == old(self).with_media(media),
    ;
}

/// Why a CSSOM rule mutation was refused.
#[derive(Debug)]
pub enum CssomMutationError<E> {
    /// No author sheet at that position.
    IndexSize,
    /// Inserting before a retained `@import` rule.
    ImportInsertion,
    /// Deleting a retained `@import` rule.
    ImportDeletion,
    /// The sheet's own rule list refused the mutation.
    Rule(E),
}

/// The identities of a resolved resource set, in order.
pub open spec fn identities(sources: Seq<ResolvedStylesheet>) -> Seq<SheetIdentity> {
    sources.map_values(|source: ResolvedStylesheet| identity_of(source))
}

/// The positions of the sheets that are members of `document.styleSheets`,
/// in order: every sheet that was not imported.
pub open spec fn document_positions<P>(sheets: Seq<AuthorStylesheet<P>>) -> Seq<usize>
    decreases sheets.len(),
{
    if sheets.len() == 0 {
        Seq::empty()
    } else if sheets.last().owner != StylesheetOwner::Imported {
        document_positions(sheets.drop_last()).push((sheets.len() - 1) as usize)
    } else {
        document_positions(sheets.drop_last())
    }
}

/// The first position holding a sheet with this id.
pub open spec fn first_with_id<P>(sheets: Seq<AuthorStylesheet<P>>, sheet_id: u64) -> Option<int> {
    if exists|i: int| 0 <= i < sheets.len() && sheets[i].sheet_id == sheet_id {
        Some(
            choose|i: int|
                0 <= i < sheets.len() && sheets[i].sheet_id == sheet_id && forall|k: int|
                    0 <= k < i ==> sheets[k].sheet_id != sheet_id,
        )
    } else {
        None
    }
}

/// The retained author sheets of a document, in document order, with their
/// CSSOM identities, and the stamp that moves on every change of them.
pub struct StyleSet<P> {
    authors: Vec<AuthorStylesheet<P>>,
    generation: u64,
}

impl<P> View for StyleSet<P> {
    type V = Seq<AuthorStylesheet<P>>;

    closed spec fn view(&self) -> Seq<AuthorStylesheet<P>> {
        self.authors@
    }
}

impl<P> StyleSet<P> {
    pub closed spec fn spec_generation(&self) -> u64 {
        self.generation
    }

    /// A style set for a document's resolved sheets; `parsed[i]` is the
    /// parsed form of `sources[i]`.
    pub fn cambium_resources(sources: Vec<ResolvedStylesheet>, parsed: Vec<P>) -> (set: Self)
        requires
            sources@.len() == parsed@.len(),
        ensures
            set@.len() == sources@.len(),
            set.spec_generation() == 1,
            forall|i: int|
                0 <= i < sources@.len() ==> {
                    let sheet = #[trigger] set@[i];
                    &&& sheet.sheet_id == sources@[i].sheet_id
                    &&& sheet.owner == sources@[i].owner
                    &&& sheet.owner_node == sources@[i].owner_node
                    &&& sheet.import_parent == sources@[i].import_parent
                    &&& sheet.imports == sources@[i].imports
                    &&& sheet.authored_text == sources@[i].text
                    &&& text_of(sheet.source_url) == text_of(sources@[i].source_url)
                    &&& text_of(sheet.requested_url) == text_of(sources@[i].requested_url)
                    &&& text_of(sheet.content_type) == text_of(sources@[i].content_type)
                    &&& text_of(sheet.media) == text_of(sources@[i].media)
                    &&& sheet.stylesheet == parsed@[i]
                    &&& key_fits(identities(sources@), i, sheet.cssom_key@)
                },
    {
        let mut set = StyleSet { authors: Vec::new(), generation: 0 };
        proof {
            lemma_nothing_to_retain::<P>(sources@);
        }
        set.replace_author_sheets(sources, parsed);
        set
    }

    /// Reconcile a live document's freshly resolved resource set. A direct
    /// sheet whose owner, identity, media, response metadata and source text
    /// are unchanged keeps its parsed object, so earlier rule mutations
    /// survive an unrelated insertion, removal or reordering of sheets;
    /// every other sheet takes its fresh parsed form `parsed[i]`.
    pub fn replace_author_sheets(&mut self, sources: Vec<ResolvedStylesheet>, parsed: Vec<P>)
        requires
            sources@.len() == parsed@.len(),
        ensures
            final(self)@.len() == sources@.len(),
            final(self).spec_generation() == if old(self).spec_generation() == u64::MAX {
                u64::MAX
            } else {
                (old(self).spec_generation() + 1) as u64
            },
            forall|i: int|
                0 <= i < sources@.len() ==> {
                    let sheet = #[trigger] final(self)@[i];
                    &&& sheet.sheet_id == sources@[i].sheet_id
                    &&& sheet.owner == sources@[i].owner
                    &&& sheet.owner_node == sources@[i].owner_node
                    &&& sheet.import_parent == sources@[i].import_parent
                    &&& sheet.imports == sources@[i].imports
                    &&& sheet.authored_text@ == sources@[i].text@
                    &&& text_of(sheet.source_url) == text_of(sources@[i].source_url)
                    &&& text_of(sheet.requested_url) == text_of(sources@[i].requested_url)
                    &&& text_of(sheet.content_type) == text_of(sources@[i].content_type)
                    &&& text_of(sheet.media) == text_of(sources@[i].media)
                    &&& key_fits(identities(sources@), i, sheet.cssom_key@)
                    &&& match retention(old(self)@, sources@)[i] {
                        Some(j) => sheet.stylesheet == old(self)@[j].stylesheet
                            && sheet.authored_text == old(self)@[j].authored_text,
                        None => sheet.stylesheet == parsed@[i] && sheet.authored_text
                            == sources@[i].text,
                    }
                },
    {
        let n = sources.len();
        let mut ids: Vec<SheetIdentity> = Vec::new();
        for i in 0..n
            invariant
                n == sources@.len(),
                ids@ =~= identities(sources@).subrange(0, i as int),
        {
            ids.push(
                SheetIdentity {
                    sheet_id: sources[i].sheet_id,
                    owner_node: sources[i].owner_node,
                    document_order: sources[i].document_order,
                    import_parent: sources[i].import_parent,
                },
            );
        }
        proof {
            assert(ids@ =~= identities(sources@));
        }
        let keys = cssom_keys(&ids);
        let plan = retention_plan(&self.authors, &sources);
        let ghost old_authors = self.authors@;
        let ghost all_sources = sources@;
        let ghost all_parsed = parsed@;
        let ghost generation = self.generation;
        let mut previous: Vec<Option<AuthorStylesheet<P>>> = Vec::new();
        while self.authors.len() > 0
            invariant
                self.generation == generation,
                previous@.len() + self.authors@.len() == old_authors.len(),
                forall|j: int| 0 <= j < previous@.len() ==> (#[trigger] previous@[j]) == Some(
                    old_authors[j],
                ),
                self.authors@ == old_authors.subrange(previous@.len() as int, old_authors.len() as int),
            decreases self.authors@.len(),
        {
            let sheet = self.authors.remove(0);
            previous.push(Some(sheet));
        }
        let mut sources = sources;
        let mut parsed = parsed;
        let mut authors: Vec<AuthorStylesheet<P>> = Vec::new();
        let mut i: usize = 0;
        while i < n
            invariant
                self.generation == generation,
                n == all_sources.len(),
                n == all_parsed.len(),
                i <= n,
                keys@.len() == n,
                plan@.len() == n,
                previous@.len() == old_authors.len(),
                sources@ == all_sources.subrange(i as int, n as int),
                parsed@ == all_parsed.subrange(i as int, n as int),
                authors@.len() == i,
                forall|k: int|
                    0 <= k < n ==> key_fits(identities(all_sources), k, (#[trigger] keys@[k])@),
                forall|k: int|
                    0 <= k < n ==> (match #[trigger] plan@[k] {
                        Some(j) => retention(old_authors, all_sources)[k] == Some(j as int),
                        None => retention(old_authors, all_sources)[k] is None,
                    }),
                forall|j: int|
                    0 <= j < previous@.len() ==> (#[trigger] previous@[j] is Some ==> previous@[j]
                        == Some(old_authors[j])),
                forall|j: int|
                    0 <= j < previous@.len() && (exists|k: int|
                        i <= k < n && #[trigger] retention(old_authors, all_sources)[k] == Some(j))
                        ==> (#[trigger] previous@[j]) is Some,
                forall|k: int|
                    0 <= k < i ==> {
                        let sheet = #[trigger] authors@[k];
                        &&& sheet.sheet_id == all_sources[k].sheet_id
                        &&& sheet.owner == all_sources[k].owner
                        &&& sheet.owner_node == all_sources[k].owner_node
                        &&& sheet.import_parent == all_sources[k].import_parent
                        &&& sheet.imports == all_sources[k].imports
                        &&& sheet.authored_text@ == all_sources[k].text@
                        &&& text_of(sheet.source_url) == text_of(all_sources[k].source_url)
                        &&& text_of(sheet.requested_url) == text_of(all_sources[k].requested_url)
                        &&& text_of(sheet.content_type) == text_of(all_sources[k].content_type)
                        &&& text_of(sheet.media) == text_of(all_sources[k].media)
                        &&& key_fits(identities(all_sources), k, sheet.cssom_key@)
                        &&& match retention(old_authors, all_sources)[k] {
                            Some(j) => sheet.stylesheet == old_authors[j].stylesheet
                                && sheet.authored_text == old_authors[j].authored_text,
                            None => sheet.stylesheet == all_parsed[k] && sheet.authored_text
                                == all_sources[k].text,
                        }
                    },
            decreases n - i,
        {
            let source = sources.remove(0);
            let fresh = parsed.remove(0);
            let key = keys[i].clone();
            proof {
                assert(source == all_sources[i as int]);
                assert(fresh == all_parsed[i as int]);
            }
            let author = match plan[i] {
                Some(j) => {
                    proof {
                        assert(retention(old_authors, all_sources)[i as int] == Some(j as int));
                        lemma_retention_in_range(old_authors, all_sources, i as int);
                        assert(previous@[j as int] is Some);
                    }
                    let ghost held = previous@;
                    let taken_sheet = previous.remove(j);
                    previous.insert(j, None);
                    proof {
                        assert(previous@ =~= held.update(j as int, None));
                        assert forall|m: int|
                            0 <= m < previous@.len() && (exists|k: int|
                                i + 1 <= k < n && #[trigger] retention(old_authors, all_sources)[k]
                                    == Some(m)) implies (#[trigger] previous@[m]) is Some by {
                            let k = choose|k: int|
                                i + 1 <= k < n && #[trigger] retention(old_authors, all_sources)[k]
                                    == Some(m);
                            law_retention_is_one_to_one(old_authors, all_sources, i as int, k);
                            assert(retention(old_authors, all_sources)[k] == Some(m));
                        }
                    }
                    let mut retained = taken_sheet.unwrap();
                    retained.refresh_resource_graph(source, key);
                    retained
                },
                None => AuthorStylesheet::from_resolved(source, key, fresh),
            };
            authors.push(author);
            i = i + 1;
        }
        self.authors = authors;
        self.generation = self.generation.saturating_add(1);
    }

    /// The retained author sheets, in document order.
    pub fn author_sheets(&self) -> (sheets: &Vec<AuthorStylesheet<P>>)
        ensures
            sheets@ == self@,
    {
        &self.authors
    }

    /// The positions of the sheets that are members of
    /// `document.styleSheets`; imported sheets stay children of their parent.
    pub fn document_sheet_indexes(&self) -> (indexes: Vec<usize>)
        ensures
            indexes@ == document_positions(self@),
    {
        let mut indexes: Vec<usize> = Vec::new();
        let mut i: usize = 0;
        while i < self.authors.len()
            invariant
                i <= self@.len(),
                indexes@ == document_positions(self@.subrange(0, i as int)),
            decreases self@.len() - i,
        {
            proof {
                let prefix = self@.subrange(0, i + 1);
                assert(prefix.drop_last() =~= self@.subrange(0, i as int));
            }
            if self.authors[i].owner != StylesheetOwner::Imported {
                indexes.push(i);
            }
            i = i + 1;
        }
        proof {
            assert(self@.subrange(0, self@.len() as int) =~= self@);
        }
        indexes
    }

    /// Look up a direct document sheet or an imported child by its CSSOM key.
    pub fn author_index_by_cssom_key(&self, key: &str) -> (found: Option<usize>)
        ensures
            match found {
                Some(i) => i < self@.len() && self@[i as int].cssom_key@ == key@ && forall|k: int|
                    0 <= k < i ==> (#[trigger] self@[k]).cssom_key@ != key@,
                None => forall|k: int| 0 <= k < self@.len() ==> (#[trigger] self@[k]).cssom_key@ != key@,
            },
    {
        let mut i: usize = 0;
        while i < self.authors.len()
            invariant
                i <= self@.len(),
                forall|k: int| 0 <= k < i ==> (#[trigger] self@[k]).cssom_key@ != key@,
            decreases self@.len() - i,
        {
            if crate::text::str_equal(self.authors[i].cssom_key.as_str(), key) {
                return Some(i);
            }
            i = i + 1;
        }
        None
    }

    /// The CSSOM key of the sheet at a position.
    pub fn cssom_key(&self, sheet: usize) -> (key: Option<&str>)
        ensures
            match key {
                Some(k) => sheet < self@.len() && k@ == self@[sheet as int].cssom_key@,
                None => sheet >= self@.len(),
            },
    {
        if sheet < self.authors.len() {
            Some(self.authors[sheet].cssom_key.as_str())
        } else {
            None
        }
    }

    /// The CSSOM view of one retained `@import` rule: its URL and media as
    /// authored, and the key of the sheet it brought in, when that sheet is
    /// among the retained ones.
    pub fn cssom_import_rule(&self, sheet: usize, index: usize) -> (rule: Option<CssomImportRule>)
        ensures
            match rule {
                Some(r) => {
                    &&& sheet < self@.len()
                    &&& index < self@[sheet as int].imports@.len()
                    &&& {
                        let import = self@[sheet as int].imports@[index as int];
                        &&& r.href@ == import.authored_url@
                        &&& text_of(r.media) == text_of(import.media)
                        &&& match import.child_sheet_id {
                            Some(child) => match first_with_id(self@, child) {
                                Some(c) => text_of(r.child_sheet_key) == Some(self@[c].cssom_key@),
                                None => r.child_sheet_key is None,
                            },
                            None => r.child_sheet_key is None,
                        }
                    }
                },
                None => sheet >= self@.len() || index >= self@[sheet as int].imports@.len(),
            },
    {
        if sheet >= self.authors.len() {
            return None;
        }
        let parent = &self.authors[sheet];
        if index >= parent.imports.len() {
            return None;
        }
        let import = &parent.imports[index];
        let child_sheet_key = match import.child_sheet_id {
            Some(child) => match self.first_sheet_with_id(child) {
                Some(c) => Some(self.authors[c].cssom_key.clone()),
                None => None,
            },
            None => None,
        };
        let media = match &import.media {
            Some(m) => Some(m.clone()),
            None => None,
        };
        Some(CssomImportRule { href: import.authored_url.clone(), media, child_sheet_key })
    }

    /// The parent import rule of an imported sheet, when its parent sheet is
    /// among the retained ones.
    pub fn cssom_import_owner(&self, sheet: usize) -> (owner: Option<CssomImportOwner>)
        ensures
            match owner {
                Some(o) => {
                    &&& sheet < self@.len()
                    &&& self@[sheet as int].import_parent matches Some(parent) && {
                        &&& o.import_index == parent.import_index
                        &&& first_with_id(self@, parent.sheet_id) matches Some(p) && o.parent_sheet_key@
                            == self@[p].cssom_key@
                    }
                },
                None => sheet >= self@.len() || match self@[sheet as int].import_parent {
                    Some(parent) => first_with_id(self@, parent.sheet_id) is None,
                    None => true,
                },
            },
    {
        if sheet >= self.authors.len() {
            return None;
        }
        match self.authors[sheet].import_parent {
            None => None,
            Some(parent) => match self.first_sheet_with_id(parent.sheet_id) {
                Some(p) => Some(
                    CssomImportOwner {
                        parent_sheet_key: self.authors[p].cssom_key.clone(),
                        import_index: parent.import_index,
                    },
                ),
                None => None,
            },
        }
    }

    /// The position of the first retained sheet with this id.
    fn first_sheet_with_id(&self, sheet_id: u64) -> (found: Option<usize>)
        ensures
            match found {
                Some(i) => i < self@.len() && first_with_id(self@, sheet_id) == Some(i as int),
                None => first_with_id(self@, sheet_id) is None,
            },
    {
        let mut i: usize = 0;
        while i < self.authors.len()
            invariant
                i <= self@.len(),
                forall|k: int| 0 <= k < i ==> (#[trigger] self@[k]).sheet_id != sheet_id,
            decreases self@.len() - i,
        {
            if self.authors[i].sheet_id == sheet_id {
                proof {
                    let c = choose|c: int|
                        0 <= c < self@.len() && self@[c].sheet_id == sheet_id && forall|k: int|
                            0 <= k < c ==> self@[k].sheet_id != sheet_id;
                    assert(0 <= i < self@.len() && self@[i as int].sheet_id == sheet_id);
                    if c < i {
                        assert(self@[c].sheet_id != sheet_id);
                    }
                    if c > i {
                        assert(self@[i as int].sheet_id != sheet_id);
                    }
                }
                return Some(i);
            }
            i = i + 1;
        }
        None
    }

    /// The author-cascade stamp; it moves on every change of the sheets.
    pub fn generation(&self) -> (generation: u64)
        ensures
            generation == self.spec_generation(),
    {
        self.generation
    }
}

/// Where a CSSOM rule index falls in the parser's rule list: the sheet's
/// leading `@import` rules are counted by the CSSOM but kept apart from the
/// parsed rules. `None` for an index among the imports.
pub fn parsed_rule_index(import_count: usize, index: usize) -> (parsed: Option<usize>)
    ensures
        parsed == if index < import_count {
            None
        } else {
            Some((index - import_count) as usize)
        },
{
    if index < import_count {
        None
    } else {
        Some(index - import_count)
    }
}

/// The CSSOM index of a rule the parser placed at `parsed`.
pub fn cssom_rule_index(import_count: usize, parsed: usize) -> (index: usize)
    ensures
        index == if parsed + import_count > usize::MAX {
            usize::MAX
        } else {
            (parsed + import_count) as usize
        },
{
    parsed.saturating_add(import_count)
}

/// A parsed-rule index translated to the CSSOM and back is unchanged.
pub proof fn law_rule_index_round_trip(import_count: usize, parsed: usize)
    requires
        parsed + import_count <= usize::MAX,
    ensures
        ({
            let index = (parsed + import_count) as usize;
            index >= import_count && (index - import_count) as usize == parsed
        }),
{
}

/// Two retained sheets that agree in everything but their rule lists.
pub open spec fn same_but_rules<P>(a: AuthorStylesheet<P>, b: AuthorStylesheet<P>) -> bool {
    &&& a.sheet_id == b.sheet_id
    &&& a.owner == b.owner
    &&& a.owner_node == b.owner_node
    &&& a.source_url == b.source_url
    &&& a.requested_url == b.requested_url
    &&& a.content_type == b.content_type
    &&& a.media == b.media
    &&& a.imports == b.imports
    &&& a.import_parent == b.import_parent
    &&& a.cssom_key == b.cssom_key
    &&& a.authored_text == b.authored_text
}

/// The stamp after a change: one more, stopping at `u64::MAX`.
pub open spec fn next_stamp(generation: u64) -> u64 {
    if generation == u64::MAX {
        u64::MAX
    } else {
        (generation + 1) as u64
    }
}

/// A mutation of the sheet at `sheet` that reached its rule list: only that
/// sheet changed, and only in holding the rule list `list`; the stamp moves
/// on exactly when the mutation succeeded.
pub open spec fn rule_list_mutation<P, T, E>(
    before: StyleSet<P>,
    after: StyleSet<P>,
    sheet: usize,
    list: P,
    result: Result<T, CssomMutationError<E>>,
) -> bool {
    &&& after@.len() == before@.len()
    &&& forall|k: int| 0 <= k < before@.len() && k != sheet ==> (#[trigger] after@[k]) == before@[k]
    &&& same_but_rules(after@[sheet as int], before@[sheet as int])
    &&& after@[sheet as int].stylesheet == list
    &&& (result is Ok ==> after.spec_generation() == next_stamp(before.spec_generation()))
    &&& (result is Err ==> after.spec_generation() == before.spec_generation())
}

/// The rule list of an author sheet after `insertRule`: on success it is
/// re-evaluated under the sheet's `media` attribute, when there is one.
pub open spec fn inserted_list<P: CssomRuleList>(sheet: AuthorStylesheet<P>, rule: &str, index: usize) -> P {
    let (list, outcome) = sheet.stylesheet.inserted(rule, index);
    match (outcome, sheet.media) {
        (Ok(_), Some(media)) => list.with_media(&media),
        _ => list,
    }
}

/// The answer of `insertRule` on an author sheet: the rule list's own, its
/// refusal wrapped as `Rule`.
pub open spec fn inserted_answer<P: CssomRuleList>(sheet: AuthorStylesheet<P>, rule: &str, index: usize) -> Result<
    usize,
    CssomMutationError<P::Error>,
> {
    match sheet.stylesheet.inserted(rule, index).1 {
        Ok(position) => Ok(position),
        Err(error) => Err(CssomMutationError::Rule(error)),
    }
}

/// The answer of `deleteRule` on an author sheet: the rule list's own, its
/// refusal wrapped as `Rule`.
pub open spec fn deleted_answer<P: CssomRuleList>(sheet: AuthorStylesheet<P>, index: usize) -> Result<
    (),
    CssomMutationError<P::Error>,
> {
    match sheet.stylesheet.deleted(index).1 {
        Ok(()) => Ok(()),
        Err(error) => Err(CssomMutationError::Rule(error)),
    }
}

/// A parsed-rule position counted past `import_count` leading imports,
/// saturating; a refusal is passed on.
pub open spec fn counted_past_imports<E>(answer: Result<usize, CssomMutationError<E>>, import_count: usize) -> Result<
    usize,
    CssomMutationError<E>,
> {
    match answer {
        Ok(position) => Ok(
            if position + import_count > usize::MAX {
                usize::MAX
            } else {
                (position + import_count) as usize
            },
        ),
        Err(error) => Err(error),
    }
}

/// A refused mutation: nothing changed, the stamp included.
pub open spec fn unchanged<P>(before: StyleSet<P>, after: StyleSet<P>) -> bool {
    after@ == before@ && after.spec_generation() == before.spec_generation()
}

impl<P: CssomRuleList> StyleSet<P> {
    /// CSSOM `insertRule` on one author sheet; the stamp moves on success.
    /// A sheet position out of range is refused with `IndexSize` and changes
    /// nothing; otherwise the sheet's rule list inserts the rule at `index`,
    /// is re-evaluated under the sheet's media on success, and its answer is
    /// returned, a refusal as `Rule`.
    pub fn insert_author_rule(&mut self, sheet: usize, rule: &str, index: usize) -> (result: Result<
        usize,
        CssomMutationError<P::Error>,
    >)
        ensures
            (result matches Err(CssomMutationError::IndexSize)) <==> sheet >= old(self)@.len(),
            sheet >= old(self)@.len() ==> unchanged(*old(self), *final(self)),
            sheet < old(self)@.len() ==> result == inserted_answer(old(self)@[sheet as int], rule, index),
            sheet < old(self)@.len() ==> rule_list_mutation(
                *old(self),
                *final(self),
                sheet,
                inserted_list(old(self)@[sheet as int], rule, index),
                result,
            ),
    {
        if sheet >= self.authors.len() {
            return Err(CssomMutationError::IndexSize);
        }
        let ghost before = self.authors@;
        let mut target = self.authors.remove(sheet);
        let ghost original = target;
        let outcome = target.stylesheet.insert_rule(rule, index);
        let result = match outcome {
            Ok(inserted) => {
                match &target.media {
                    Some(media) => target.stylesheet.apply_document_media(media),
                    None => {},
                }
                Ok(inserted)
            },
            Err(error) => Err(CssomMutationError::Rule(error)),
        };
        assert(same_but_rules(target, original));
        assert(target.stylesheet == inserted_list(original, rule, index));
        self.authors.insert(sheet, target);
        proof {
            assert(before[sheet as int] == original);
            assert forall|k: int| 0 <= k < before.len() && k != sheet implies (#[trigger] self@[k])
                == before[k] by {
                if k < sheet {
                    assert(self@[k] == before.remove(sheet as int)[k]);
                } else {
                    assert(self@[k] == before.remove(sheet as int)[k - 1]);
                }
            }
        }
        if result.is_ok() {
            self.generation = self.generation.saturating_add(1);
        }
        result
    }

    /// CSSOM `insertRule` counting the sheet's leading `@import` rules,
    /// which cannot be inserted before: a sheet out of range is refused with
    /// `IndexSize`, an index among the imports with `ImportInsertion`, and
    /// both refusals change nothing; otherwise the insertion goes to the
    /// parsed rules at the index past the imports, as `insert_author_rule`
    /// makes it, and its position comes back counted past them.
    pub fn insert_cssom_rule(&mut self, sheet: usize, rule: &str, index: usize) -> (result: Result<
        usize,
        CssomMutationError<P::Error>,
    >)
        ensures
            (result matches Err(CssomMutationError::IndexSize)) <==> sheet >= old(self)@.len(),
            (result matches Err(CssomMutationError::ImportInsertion)) <==> (sheet < old(self)@.len() && index
                < old(self)@[sheet as int].imports@.len()),
            (sheet >= old(self)@.len() || index < old(self)@[sheet as int].imports@.len()) ==> unchanged(
                *old(self),
                *final(self),
            ),
            sheet < old(self)@.len() && index >= old(self)@[sheet as int].imports@.len() ==> ({
                let target = old(self)@[sheet as int];
                let import_count = target.imports@.len() as usize;
                let parsed = (index - import_count) as usize;
                &&& result == counted_past_imports(inserted_answer(target, rule, parsed), import_count)
                &&& rule_list_mutation(*old(self), *final(self), sheet, inserted_list(target, rule, parsed), result)
            }),
    {
        if sheet >= self.authors.len() {
            return Err(CssomMutationError::IndexSize);
        }
        let import_count = self.authors[sheet].imports.len();
        match parsed_rule_index(import_count, index) {
            None => Err(CssomMutationError::ImportInsertion),
            Some(parsed) => match self.insert_author_rule(sheet, rule, parsed) {
                Ok(inserted) => Ok(cssom_rule_index(import_count, inserted)),
                Err(error) => Err(error),
            },
        }
    }

    /// CSSOM `deleteRule` on one author sheet; the stamp moves on success.
    /// A sheet position out of range is refused with `IndexSize` and changes
    /// nothing; otherwise the sheet's rule list deletes the rule at `index`
    /// and its answer is returned, a refusal as `Rule`.
    pub fn delete_author_rule(&mut self, sheet: usize, index: usize) -> (result: Result<
        (),
        CssomMutationError<P::Error>,
    >)
        ensures
            (result matches Err(CssomMutationError::IndexSize)) <==> sheet >= old(self)@.len(),
            sheet >= old(self)@.len() ==> unchanged(*old(self), *final(self)),
            sheet < old(self)@.len() ==> result == deleted_answer(old(self)@[sheet as int], index),
            sheet < old(self)@.len() ==> rule_list_mutation(
                *old(self),
                *final(self),
                sheet,
                old(self)@[sheet as int].stylesheet.deleted(index).0,
                result,
            ),
    {
        if sheet >= self.authors.len() {
            return Err(CssomMutationError::IndexSize);
        }
        let ghost before = self.authors@;
        let mut target = self.authors.remove(sheet);
        let ghost original = target;
        let result = match target.stylesheet.delete_rule(index) {
            Ok(()) => Ok(()),
            Err(error) => Err(CssomMutationError::Rule(error)),
        };
        assert(same_but_rules(target, original));
        self.authors.insert(sheet, target);
        proof {
            assert(before[sheet as int] == original);
            assert forall|k: int| 0 <= k < before.len() && k != sheet implies (#[trigger] self@[k])
                == before[k] by {
                if k < sheet {
                    assert(self@[k] == before.remove(sheet as int)[k]);
                } else {
                    assert(self@[k] == before.remove(sheet as int)[k - 1]);
                }
            }
        }
        if result.is_ok() {
            self.generation = self.generation.saturating_add(1);
        }
        result
    }

    /// CSSOM `deleteRule` counting the sheet's leading `@import` rules,
    /// which cannot be deleted: a sheet out of range is refused with
    /// `IndexSize`, an index among the imports with `ImportDeletion`, and
    /// both refusals change nothing; otherwise the deletion goes to the
    /// parsed rule at the index past the imports, as `delete_author_rule`
    /// makes it.
    pub fn delete_cssom_rule(&mut self, sheet: usize, index: usize) -> (result: Result<
        (),
        CssomMutationError<P::Error>,
    >)
        ensures
            (result matches Err(CssomMutationError::IndexSize)) <==> sheet >= old(self)@.len(),
            (result matches Err(CssomMutationError::ImportDeletion)) <==> (sheet < old(self)@.len() && index
                < old(self)@[sheet as int].imports@.len()),
            (sheet >= old(self)@.len() || index < old(self)@[sheet as int].imports@.len()) ==> unchanged(
                *old(self),
                *final(self),
            ),
            sheet < old(self)@.len() && index >= old(self)@[sheet as int].imports@.len() ==> ({
                let target = old(self)@[sheet as int];
                let parsed = (index - target.imports@.len()) as usize;
                &&& result == deleted_answer(target, parsed)
                &&& rule_list_mutation(*old(self), *final(self), sheet, target.stylesheet.deleted(parsed).0, result)
            }),
    {
        if sheet >= self.authors.len() {
            return Err(CssomMutationError::IndexSize);
        }
        let import_count = self.authors[sheet].imports.len();
        match parsed_rule_index(import_count, index) {
            None => Err(CssomMutationError::ImportDeletion),
            Some(parsed) => self.delete_author_rule(sheet, parsed),
        }
    }
}

/// The number of author rules before the sheets counted, saturating at
/// `u64::MAX`.
pub open spec fn rules_before(counts: Seq<usize>) -> u64
    decreases counts.len(),
{
    if counts.len() == 0 {
        0
    } else {
        let total = rules_before(counts.drop_last()) + counts.last();
        if total > u64::MAX {
            u64::MAX
        } else {
            total as u64
        }
    }
}

/// Author source order runs across sheets in document order: the rules of
/// sheet `i` are numbered from the count of rules in the sheets before it
/// (`counts[j]` rules in sheet `j`), saturating at `u64::MAX`.
pub fn author_source_offsets(counts: &Vec<usize>) -> (offsets: Vec<u64>)
    ensures
        offsets@.len() == counts@.len(),
        forall|i: int| 0 <= i < counts@.len() ==> #[trigger] offsets@[i] == rules_before(counts@.take(i)),
{
    let mut offsets: Vec<u64> = Vec::new();
    let mut source_order: u64 = 0;
    let mut i: usize = 0;
    proof {
        assert(counts@.take(0) =~= Seq::<usize>::empty());
    }
    while i < counts.len()
        invariant
            i <= counts@.len(),
            offsets@.len() == i,
            source_order == rules_before(counts@.take(i as int)),
            forall|j: int| 0 <= j < i ==> #[trigger] offsets@[j] == rules_before(counts@.take(j)),
        decreases counts@.len() - i,
    {
        offsets.push(source_order);
        proof {
            assert(counts@.take(i + 1).drop_last() =~= counts@.take(i as int));
        }
        source_order = source_order.saturating_add(counts[i] as u64);
        i = i + 1;
    }
    offsets
}

} // verus!
