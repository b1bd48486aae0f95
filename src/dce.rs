//! Dead-code elimination: removes the instructions whose results are never
//! read, directly or through other removed instructions, and keeps the user
//! sets of the surviving instructions accurate.
use vstd::prelude::*;
use crate::ssa::{flatten, lemma_placed_valid_in, Block, Function, InstructionId, Module};

verus! {

/// The dead-code elimination pass.
pub struct DeadCodeElimination {}

/// The predicate that keeps ids outside `dead`.
pub open spec fn not_in(dead: Set<InstructionId>) -> spec_fn(InstructionId) -> bool {
    |u: InstructionId| !dead.contains(u)
}

impl Function {
    /// The ids marked for removal once the backward scan over `order()` has
    /// visited positions `p` and above.
    pub open spec fn dead_from(&self, p: int) -> Set<InstructionId>
        decreases self.order().len() - p,
    {
        if 0 <= p < self.order().len() {
            let d = self.dead_from(p + 1);
            let kept = self.users_of(self.order()[p]).filter(not_in(d));
            if kept.len() == 0 {
                d.insert(self.order()[p])
            } else {
                d
            }
        } else {
            Set::empty()
        }
    }

    /// The users of the instruction at position `p` that are still alive when
    /// the scan reaches it.
    pub open spec fn kept_users(&self, p: int) -> Seq<InstructionId> {
        self.users_of(self.order()[p]).filter(not_in(self.dead_from(p + 1)))
    }

    /// The instruction at position `p` has no surviving user and is removed.
    pub open spec fn eliminated_at(&self, p: int) -> bool {
        self.kept_users(p).len() == 0
    }

    /// Every instruction that the pass removes.
    pub open spec fn dead_set(&self) -> Set<InstructionId> {
        self.dead_from(0)
    }

    /// The instruction at position `p` survives and is recorded with its
    /// surviving users.
    pub open spec fn survives_at(&self, p: int) -> bool {
        0 <= p < self.order().len() && !self.eliminated_at(p)
    }
}

/// `new` is `old` after one pass: each block keeps its surviving instructions
/// in order and its terminator; each surviving instruction has its surviving
/// users; nothing else changes.
pub open spec fn dce_result(old: &Function, new: &Function) -> bool {
    &&& new.name == old.name
    &&& new.ret_type == old.ret_type
    &&& new.params@ == old.params@
    &&& new.blocks.len() == old.blocks.len()
    &&& forall|b: int| 0 <= b < old.blocks.len() ==> (#[trigger] new.blocks@[b]).terminator == old.blocks@[b].terminator
    &&& forall|b: int|
        0 <= b < old.blocks.len() ==> (#[trigger] new.blocks@[b]).instructions@
            == old.blocks@[b].instructions@.filter(not_in(old.dead_set()))
    &&& new.insts.len() == old.insts.len()
    &&& forall|i: int| 0 <= i < old.insts.len() ==> (#[trigger] new.insts@[i]).kind == old.insts@[i].kind
    &&& forall|p: int| #[trigger] old.survives_at(p) ==> new.users_of(old.order()[p]) == old.kept_users(p)
    &&& forall|i: int|
        0 <= i < old.insts.len() && (forall|p: int| #[trigger] old.survives_at(p) ==> old.order()[p].index != i)
            ==> (#[trigger] new.insts@[i]).users@ == old.insts@[i].users@
}

proof fn lemma_filter_take_step(s: Seq<InstructionId>, pred: spec_fn(InstructionId) -> bool, j: int)
    requires
        0 <= j < s.len(),
    ensures
        s.take(j + 1).filter(pred) == if pred(s[j]) {
            s.take(j).filter(pred).push(s[j])
        } else {
            s.take(j).filter(pred)
        },
{
    reveal(Seq::filter);
    assert(s.take(j + 1).drop_last() =~= s.take(j));
}

/// The non-terminator instructions of `f`, block after block.
fn instruction_order(f: &Function) -> (r: Vec<InstructionId>)
    ensures
        r@ == f.order(),
{
    let mut r: Vec<InstructionId> = Vec::new();
    let nb = f.blocks.len();
    let mut b: usize = 0;
    while b < nb
        invariant
            nb == f.blocks.len(),
            b <= nb,
            r@ == flatten(f.blocks@.take(b as int)),
        decreases nb - b,
    {
        let insts = &f.blocks[b].instructions;
        let mut k: usize = 0;
        while k < insts.len()
            invariant
                nb == f.blocks.len(),
                b < nb,
                *insts == f.blocks@[b as int].instructions,
                k <= insts.len(),
                r@ == flatten(f.blocks@.take(b as int)) + insts@.take(k as int),
            decreases insts.len() - k,
        {
            r.push(insts[k]);
            k = k + 1;
            assert(insts@.take(k as int) =~= insts@.take(k - 1).push(insts@[k - 1]));
        }
        assert(f.blocks@.take(b + 1).drop_last() =~= f.blocks@.take(b as int));
        assert(insts@.take(k as int) =~= insts@);
        b = b + 1;
    }
    assert(f.blocks@.take(nb as int) =~= f.blocks@);
    r
}

proof fn lemma_flatten_contains(blocks: Seq<Block>, b: int, k: int)
    requires
        0 <= b < blocks.len(),
        0 <= k < blocks[b].instructions.len(),
    ensures
        flatten(blocks).contains(blocks[b].instructions@[k]),
    decreases blocks.len(),
{
    let x = blocks[b].instructions@[k];
    let head = flatten(blocks.drop_last());
    if b == blocks.len() - 1 {
        assert(flatten(blocks)[head.len() + k] == x);
    } else {
        lemma_flatten_contains(blocks.drop_last(), b, k);
        let j = choose|j: int| 0 <= j < head.len() && head[j] == x;
        assert(flatten(blocks)[j] == x);
    }
}

impl DeadCodeElimination {
    pub fn new() -> Self {
        DeadCodeElimination {}
    }

    /// Runs the pass on every function of `module`.
    pub fn apply(&mut self, module: &mut Module)
        requires
            forall|k: int| 0 <= k < old(module).functions.len() ==> (#[trigger] old(module).functions@[k]).wf(),
        ensures
            final(module).functions.len() == old(module).functions.len(),
            forall|k: int|
                0 <= k < old(module).functions.len() ==> dce_result(
                    &(#[trigger] old(module).functions@[k]),
                    &final(module).functions@[k],
                ),
            final(module).globals@ == old(module).globals@,
    {
        let n = module.functions.len();
        let mut k: usize = 0;
        while k < n
            invariant
                n == old(module).functions.len(),
                module.functions.len() == n,
                k <= n,
                module.globals@ == old(module).globals@,
                forall|j: int| 0 <= j < k ==> dce_result(&(#[trigger] old(module).functions@[j]), &module.functions@[j]),
                forall|j: int| k <= j < n ==> (#[trigger] module.functions@[j]) == old(module).functions@[j],
                forall|j: int| 0 <= j < n ==> (#[trigger] old(module).functions@[j]).wf(),
            decreases n - k,
        {
            self.apply_function(&mut module.functions[k]);
            k = k + 1;
        }
    }

    /// Removes from `function` every instruction whose results are unused,
    /// directly or through removed instructions, scanning blocks and
    /// instructions backwards; then records the surviving users of each
    /// remaining instruction.
    ///
    /// Only recorded users count: a `Store` or a `Call` whose result nobody
    /// reads is removed like any other instruction.
    pub fn apply_function(&mut self, function: &mut Function)
        requires
            old(function).wf(),
        ensures
            dce_result(&*old(function), &*final(function)),
    {
        let ghost f = *function;
        let order = instruction_order(function);
        let n = order.len();
        let ninst = function.insts.len();
        let mut dead: Vec<bool> = Vec::new();
        let mut new_users: Vec<Option<Vec<InstructionId>>> = Vec::new();
        let mut i: usize = 0;
        while i < ninst
            invariant
                i <= ninst,
                dead@ == Seq::new(i as nat, |j: int| false),
                new_users@ == Seq::new(i as nat, |j: int| None::<Vec<InstructionId>>),
            decreases ninst - i,
        {
            dead.push(false);
            new_users.push(None);
            i = i + 1;
        }
        // Phase one: decide, without touching the function.
        let mut p: usize = n;
        while p > 0
            invariant
                *function == f,
                f.wf(),
                order@ == f.order(),
                n == order.len(),
                ninst == f.insts.len(),
                p <= n,
                dead.len() == ninst,
                new_users.len() == ninst,
                forall|j: int| 0 <= j < ninst ==> dead@[j] == f.dead_from(p as int).contains(InstructionId { index: j as usize }),
                forall|q: int|
                    p <= q < n && #[trigger] f.survives_at(q) ==> new_users@[f.order()[q].index as int] is Some
                        && new_users@[f.order()[q].index as int].unwrap()@ == f.kept_users(q),
                forall|j: int|
                    0 <= j < ninst && (forall|q: int| p <= q < n && #[trigger] f.survives_at(q) ==> f.order()[q].index != j)
                        ==> (#[trigger] new_users@[j]) is None,
            decreases p,
        {
            p = p - 1;
            let ghost nu0 = new_users@;
            let id = order[p];
            assert(f.order()[p as int].index < ninst);
            let users = &function.insts[id.index].users;
            let ghost pred = not_in(f.dead_from(p + 1));
            let mut kept: Vec<InstructionId> = Vec::new();
            let mut j: usize = 0;
            while j < users.len()
                invariant
                    *function == f,
                    f.wf(),
                    id.index < ninst,
                    ninst == f.insts.len(),
                    *users == f.insts@[id.index as int].users,
                    dead.len() == ninst,
                    forall|j: int| 0 <= j < ninst ==> dead@[j] == f.dead_from(p + 1).contains(InstructionId { index: j as usize }),
                    pred == not_in(f.dead_from(p + 1)),
                    j <= users.len(),
                    kept@ == users@.take(j as int).filter(pred),
                decreases users.len() - j,
            {
                let u = users[j];
                assert(u.index < ninst);
                assert(u == InstructionId { index: u.index });
                proof {
                    lemma_filter_take_step(users@, pred, j as int);
                }
                if !dead[u.index] {
                    kept.push(u);
                }
                j = j + 1;
            }
            assert(users@.take(users.len() as int) =~= users@);
            assert(kept@ == f.kept_users(p as int));
            if kept.len() == 0 {
                dead.set(id.index, true);
            } else {
                new_users.set(id.index, Some(kept));
            }
            assert forall|q: int| p < q < n implies f.order()[q].index != id.index by {
                assert(f.order()[q] != f.order()[p as int]);
            }
            assert forall|j: int|
                0 <= j < ninst && (forall|q: int| p <= q < n && #[trigger] f.survives_at(q) ==> f.order()[q].index != j)
                    implies (#[trigger] new_users@[j]) is None by {
                assert(forall|q: int| p + 1 <= q < n && #[trigger] f.survives_at(q) ==> f.order()[q].index != j);
                assert(nu0[j] is None);
                if j == id.index {
                    assert(!f.survives_at(p as int));
                }
            }
        }
        // Phase two: drop the marked instructions from their blocks.
        let nb = function.blocks.len();
        let mut b: usize = 0;
        while b < nb
            invariant
                f.wf(),
                ninst == f.insts.len(),
                dead.len() == ninst,
                forall|j: int| 0 <= j < ninst ==> dead@[j] == f.dead_set().contains(InstructionId { index: j as usize }),
                nb == f.blocks.len(),
                function.blocks.len() == nb,
                b <= nb,
                function.name == f.name,
                function.ret_type == f.ret_type,
                function.params@ == f.params@,
                function.insts@ == f.insts@,
                forall|c: int| 0 <= c < nb ==> (#[trigger] function.blocks@[c]).terminator == f.blocks@[c].terminator,
                forall|c: int|
                    0 <= c < b ==> (#[trigger] function.blocks@[c]).instructions@
                        == f.blocks@[c].instructions@.filter(not_in(f.dead_set())),
                forall|c: int| b <= c < nb ==> (#[trigger] function.blocks@[c]).instructions@ == f.blocks@[c].instructions@,
            decreases nb - b,
        {
            let ghost pred = not_in(f.dead_set());
            let mut kept: Vec<InstructionId> = Vec::new();
            let mut k: usize = 0;
            let len = function.blocks[b].instructions.len();
            while k < len
                invariant
                    f.wf(),
                    ninst == f.insts.len(),
                    dead.len() == ninst,
                    forall|j: int| 0 <= j < ninst ==> dead@[j] == f.dead_set().contains(InstructionId { index: j as usize }),
                    nb == f.blocks.len(),
                    function.blocks.len() == nb,
                    b < nb,
                    function.blocks@[b as int].instructions@ == f.blocks@[b as int].instructions@,
                    len == f.blocks@[b as int].instructions.len(),
                    pred == not_in(f.dead_set()),
                    k <= len,
                    kept@ == f.blocks@[b as int].instructions@.take(k as int).filter(pred),
                decreases len - k,
            {
                let id = function.blocks[b].instructions[k];
                proof {
                    lemma_flatten_contains(f.blocks@, b as int, k as int);
                    lemma_filter_take_step(f.blocks@[b as int].instructions@, pred, k as int);
                }
                assert(id == InstructionId { index: id.index });
                if !dead[id.index] {
                    kept.push(id);
                }
                k = k + 1;
            }
            assert(f.blocks@[b as int].instructions@.take(len as int) =~= f.blocks@[b as int].instructions@);
            function.blocks[b].instructions = kept;
            b = b + 1;
        }
        // Phase three: commit the surviving users.
        let mut i: usize = ninst;
        let ghost nu = new_users@;
        while i > 0
            invariant
                i <= ninst,
                ninst == f.insts.len(),
                function.insts.len() == ninst,
                new_users@ == nu.take(i as int),
                nu.len() == ninst,
                forall|j: int| 0 <= j < ninst ==> (#[trigger] function.insts@[j]).kind == f.insts@[j].kind,
                forall|j: int| 0 <= j < i ==> (#[trigger] function.insts@[j]).users == f.insts@[j].users,
                forall|j: int|
                    i <= j < ninst ==> (#[trigger] function.insts@[j]).users@ == if nu[j] is Some {
                        nu[j].unwrap()@
                    } else {
                        f.insts@[j].users@
                    },
                function.name == f.name,
                function.ret_type == f.ret_type,
                function.params@ == f.params@,
                forall|c: int| 0 <= c < f.blocks.len() ==> (#[trigger] function.blocks@[c]).terminator == f.blocks@[c].terminator,
                forall|c: int|
                    0 <= c < f.blocks.len() ==> (#[trigger] function.blocks@[c]).instructions@
                        == f.blocks@[c].instructions@.filter(not_in(f.dead_set())),
                function.blocks.len() == f.blocks.len(),
            decreases i,
        {
            i = i - 1;
            let entry = new_users.pop();
            assert(nu.take(i as int + 1).drop_last() =~= nu.take(i as int));
            match entry {
                Some(Some(users)) => {
                    function.insts[i].users = users;
                },
                _ => {},
            }
        }
        assert forall|q: int| #[trigger] f.survives_at(q) implies function.users_of(f.order()[q]) == f.kept_users(q) by {
            assert(f.order()[q].index < ninst);
        }

    }
}

/// Runs dead-code elimination on every function of `module`.
pub fn apply(module: &mut Module)
    requires
        forall|k: int| 0 <= k < old(module).functions.len() ==> (#[trigger] old(module).functions@[k]).wf(),
    ensures
        final(module).functions.len() == old(module).functions.len(),
        forall|k: int|
            0 <= k < old(module).functions.len() ==> dce_result(
                &(#[trigger] old(module).functions@[k]),
                &final(module).functions@[k],
            ),
        final(module).globals@ == old(module).globals@,
{
    DeadCodeElimination::new().apply(module);
}

proof fn lemma_dead_from_in_suffix(f: &Function, p: int, x: InstructionId)
    requires
        0 <= p <= f.order().len(),
        f.dead_from(p).contains(x),
    ensures
        exists|r: int| p <= r < f.order().len() && f.order()[r] == x,
    decreases f.order().len() - p,
{
    if p < f.order().len() && x != f.order()[p] {
        lemma_dead_from_in_suffix(f, p + 1, x);
    }
}

/// Whether the instruction at position `r` is marked is settled when the scan
/// reaches it.
proof fn lemma_dead_stable(f: &Function, p: int, r: int)
    requires
        f.wf(),
        0 <= p <= r < f.order().len(),
    ensures
        f.dead_from(p).contains(f.order()[r]) == f.eliminated_at(r),
    decreases r - p,
{
    if p == r {
        if f.dead_from(r + 1).contains(f.order()[r]) {
            lemma_dead_from_in_suffix(f, r + 1, f.order()[r]);
        }
    } else {
        lemma_dead_stable(f, p + 1, r);
        assert(f.order()[p] != f.order()[r]);
    }
}

proof fn lemma_flatten_filter(fb: Seq<Block>, gb: Seq<Block>, pred: spec_fn(InstructionId) -> bool)
    requires
        fb.len() == gb.len(),
        forall|b: int| 0 <= b < fb.len() ==> (#[trigger] gb[b]).instructions@ == fb[b].instructions@.filter(pred),
    ensures
        flatten(gb) == flatten(fb).filter(pred),
    decreases fb.len(),
{
    if fb.len() > 0 {
        lemma_flatten_filter(fb.drop_last(), gb.drop_last(), pred);
        assert(gb.last() == gb[gb.len() - 1]);
        Seq::filter_distributes_over_add(flatten(fb.drop_last()), fb.last().instructions@, pred);
    }
}

proof fn lemma_filter_all(s: Seq<InstructionId>, pred: spec_fn(InstructionId) -> bool)
    requires
        forall|i: int| 0 <= i < s.len() ==> pred(#[trigger] s[i]),
    ensures
        s.filter(pred) == s,
    decreases s.len(),
{
    reveal(Seq::filter);
    if s.len() > 0 {
        lemma_filter_all(s.drop_last(), pred);
        assert(s.drop_last().push(s.last()) =~= s);
    }
}

proof fn lemma_filter_none(s: Seq<InstructionId>, pred: spec_fn(InstructionId) -> bool)
    requires
        forall|i: int| 0 <= i < s.len() ==> !pred(#[trigger] s[i]),
    ensures
        s.filter(pred).len() == 0,
{
    broadcast use Seq::lemma_filter_pred, Seq::lemma_filter_contains_rev;

    if s.filter(pred).len() > 0 {
        assert(pred(s.filter(pred)[0]));
        assert(s.filter(pred).contains(s.filter(pred)[0]));
    }
}

/// After one pass, the program order is the old one with the removed
/// instructions left out.
proof fn lemma_result_order(f: &Function, g: &Function)
    requires
        f.wf(),
        dce_result(f, g),
    ensures
        g.order() == f.order().filter(not_in(f.dead_set())),
{
    lemma_flatten_filter(f.blocks@, g.blocks@, not_in(f.dead_set()));
}

/// Each instruction in a body after one pass is one that the scan kept.
proof fn lemma_result_elem(f: &Function, g: &Function, k: int) -> (q: int)
    requires
        f.wf(),
        dce_result(f, g),
        0 <= k < g.order().len(),
    ensures
        f.survives_at(q),
        f.order()[q] == g.order()[k],
{
    broadcast use Seq::lemma_filter_pred, Seq::lemma_filter_contains_rev;

    lemma_result_order(f, g);
    let x = g.order()[k];
    assert(f.order().filter(not_in(f.dead_set())).contains(x));
    let q = choose|q: int| 0 <= q < f.order().len() && f.order()[q] == x;
    lemma_dead_stable(f, 0, q);
    q
}

/// Soundness: after one pass every instruction left in a block body has a
/// user; and, on a function whose users are placed and follow their
/// definitions, every recorded user of a survivor is still placed.
pub proof fn lemma_dce_sound(f: &Function, g: &Function)
    requires
        f.wf(),
        dce_result(f, g),
    ensures
        forall|k: int| 0 <= k < g.order().len() ==> g.users_of(#[trigger] g.order()[k]).len() > 0,
        f.users_placed() && f.defs_before_uses() ==> forall|k: int, u: InstructionId|
            0 <= k < g.order().len() && #[trigger] g.users_of(g.order()[k]).contains(u) ==> g.is_placed(u),
{
    broadcast use Seq::lemma_filter_pred, Seq::lemma_filter_contains_rev, Seq::lemma_filter_contains;

    assert forall|k: int| 0 <= k < g.order().len() implies g.users_of(#[trigger] g.order()[k]).len() > 0 by {
        let q = lemma_result_elem(f, g, k);
    }
    lemma_result_order(f, g);
    if f.users_placed() && f.defs_before_uses() {
        assert forall|k: int, u: InstructionId|
            0 <= k < g.order().len() && #[trigger] g.users_of(g.order()[k]).contains(u) implies g.is_placed(u) by {
            let q = lemma_result_elem(f, g, k);
            let pred = not_in(f.dead_from(q + 1));
            assert(f.users_of(f.order()[q]).filter(pred).contains(u));
            assert(f.users_of(f.order()[q]).contains(u));
            assert(f.is_placed(u));
            if f.order().contains(u) {
                let r = choose|r: int| 0 <= r < f.order().len() && f.order()[r] == u;
                assert(q < r);
                lemma_dead_stable(f, q + 1, r);
                lemma_dead_stable(f, 0, r);
                assert(not_in(f.dead_set())(f.order()[r]));
                assert(g.order().contains(u));
            } else {
                let b = choose|b: int| 0 <= b < f.blocks.len() && f.blocks@[b].terminator == Some(u);
                assert(g.blocks@[b].terminator == Some(u));
            }
        }
    }
}

/// Idempotence: a second pass over the result of a first one removes
/// nothing and changes no user set.
pub proof fn lemma_dce_idempotent(f: &Function, g: &Function, h: &Function)
    requires
        f.wf(),
        dce_result(f, g),
        dce_result(g, h),
    ensures
        h.blocks.len() == g.blocks.len(),
        forall|b: int|
            0 <= b < g.blocks.len() ==> (#[trigger] h.blocks@[b]).instructions@ == g.blocks@[b].instructions@
                && h.blocks@[b].terminator == g.blocks@[b].terminator,
        h.insts.len() == g.insts.len(),
        forall|i: int|
            0 <= i < g.insts.len() ==> (#[trigger] h.insts@[i]).users@ == g.insts@[i].users@
                && h.insts@[i].kind == g.insts@[i].kind,
{
    broadcast use Seq::lemma_filter_contains;

    lemma_dce_sound(f, g);
    lemma_nothing_dead(g, 0);
    assert forall|b: int| 0 <= b < g.blocks.len() implies (#[trigger] h.blocks@[b]).instructions@
        == g.blocks@[b].instructions@ by {
        lemma_filter_all(g.blocks@[b].instructions@, not_in(g.dead_set()));
    }
    assert forall|i: int| 0 <= i < g.insts.len() implies (#[trigger] h.insts@[i]).users@ == g.insts@[i].users@ by {
        if exists|p: int| #[trigger] g.survives_at(p) && g.order()[p].index == i {
            let p = choose|p: int| #[trigger] g.survives_at(p) && g.order()[p].index == i;
            lemma_nothing_dead(g, p + 1);
            lemma_filter_all(g.users_of(g.order()[p]), not_in(g.dead_from(p + 1)));
        }
    }
}

/// On a function whose body instructions all have users, the scan marks
/// nothing.
proof fn lemma_nothing_dead(g: &Function, p: int)
    requires
        0 <= p,
        forall|k: int| 0 <= k < g.order().len() ==> g.users_of(#[trigger] g.order()[k]).len() > 0,
    ensures
        g.dead_from(p) == Set::<InstructionId>::empty(),
        forall|q: int| p <= q < g.order().len() ==> #[trigger] g.survives_at(q),
    decreases g.order().len() - p,
{
    broadcast use Seq::lemma_filter_contains;

    if p < g.order().len() {
        lemma_nothing_dead(g, p + 1);
        let s = g.users_of(g.order()[p]);
        assert(s.filter(not_in(g.dead_from(p + 1))).contains(s[0]));
        assert(g.survives_at(p));
    }
}

/// Transitive closure: an instruction whose only user is removed is removed
/// in the same pass.
pub proof fn lemma_dce_transitive(f: &Function, a: InstructionId, b: InstructionId)
    requires
        f.wf(),
        f.defs_before_uses(),
        f.order().contains(a),
        f.order().contains(b),
        f.dead_set().contains(b),
        forall|u: InstructionId| #[trigger] f.users_of(a).contains(u) ==> u == b,
    ensures
        f.dead_set().contains(a),
{
    let q = choose|q: int| 0 <= q < f.order().len() && f.order()[q] == a;
    let r = choose|r: int| 0 <= r < f.order().len() && f.order()[r] == b;
    let s = f.users_of(a);
    let pred = not_in(f.dead_from(q + 1));
    assert forall|i: int| 0 <= i < s.len() implies !pred(#[trigger] s[i]) by {
        assert(s.contains(s[i]));
        assert(s[i] == b);
        assert(q < r);
        lemma_dead_stable(f, 0, r);
        lemma_dead_stable(f, q + 1, r);
    }
    lemma_filter_none(s, pred);
    lemma_dead_stable(f, 0, q);
}

proof fn lemma_filter_keeps_order(s: Seq<InstructionId>, pred: spec_fn(InstructionId) -> bool, i: int, j: int) -> (r: (int, int))
    requires
        0 <= i < j < s.filter(pred).len(),
    ensures
        0 <= r.0 < r.1 < s.len(),
        s[r.0] == s.filter(pred)[i],
        s[r.1] == s.filter(pred)[j],
    decreases s.len(),
{
    reveal(Seq::filter);
    broadcast use Seq::lemma_filter_contains_rev;

    let t = s.drop_last().filter(pred);
    if j < t.len() {
        let (a, b) = lemma_filter_keeps_order(s.drop_last(), pred, i, j);
        (a, b)
    } else {
        assert(t.contains(t[i]));
        let a = choose|a: int| 0 <= a < s.drop_last().len() && s.drop_last()[a] == t[i];
        (a, s.len() - 1)
    }
}

/// Order preservation: two instructions left in a block after one pass
/// stood in the same order in that block before it.
pub proof fn lemma_dce_keeps_order(f: &Function, g: &Function, b: int, i: int, j: int) -> (r: (int, int))
    requires
        dce_result(f, g),
        0 <= b < g.blocks.len(),
        0 <= i < j < g.blocks@[b].instructions.len(),
    ensures
        0 <= r.0 < r.1 < f.blocks@[b].instructions.len(),
        f.blocks@[b].instructions@[r.0] == g.blocks@[b].instructions@[i],
        f.blocks@[b].instructions@[r.1] == g.blocks@[b].instructions@[j],
{
    lemma_filter_keeps_order(f.blocks@[b].instructions@, not_in(f.dead_set()), i, j)
}

/// The use-def invariant survives the pass: on a function whose recorded
/// users are exactly its readers and follow their definitions, after one
/// pass the recorded users of each remaining instruction are exactly the
/// remaining instructions that read it.
pub proof fn lemma_dce_keeps_users_exact(f: &Function, g: &Function)
    requires
        f.wf(),
        f.users_exact(),
        f.defs_before_uses(),
        dce_result(f, g),
    ensures
        g.users_exact(),
{
    broadcast use Seq::lemma_filter_pred, Seq::lemma_filter_contains_rev, Seq::lemma_filter_contains;

    lemma_result_order(f, g);
    assert forall|k: int, u: InstructionId|
        #![trigger g.users_of(g.order()[k]).contains(u)]
        #![trigger g.reads(u, g.order()[k])]
        0 <= k < g.order().len() implies (g.users_of(g.order()[k]).contains(u) <==> g.is_placed(u) && g.reads(
            u,
            g.order()[k],
        )) by {
        let x = g.order()[k];
        let q = lemma_result_elem(f, g, k);
        let users = f.users_of(x);
        let pred = not_in(f.dead_from(q + 1));
        assert(g.users_of(x) == users.filter(pred));
        if g.users_of(x).contains(u) {
            assert(users.contains(u));
            assert(f.users_of(f.order()[q]).contains(u));
            assert(f.is_placed(u) && f.reads(u, x));
            lemma_placed_valid_in(f, u);
            if f.order().contains(u) {
                let r = choose|r: int| 0 <= r < f.order().len() && f.order()[r] == u;
                assert(q < r);
                lemma_dead_stable(f, q + 1, r);
                lemma_dead_stable(f, 0, r);
                assert(not_in(f.dead_set())(f.order()[r]));
                assert(g.order().contains(u));
            } else {
                let b = choose|b: int| 0 <= b < f.blocks.len() && f.blocks@[b].terminator == Some(u);
                assert(g.blocks@[b].terminator == Some(u));
            }
        }
        if g.is_placed(u) && g.reads(u, x) {
            if g.order().contains(u) {
                assert(f.order().filter(not_in(f.dead_set())).contains(u));
                assert(f.order().contains(u));
            } else {
                let b = choose|b: int| 0 <= b < g.blocks.len() && g.blocks@[b].terminator == Some(u);
                assert(f.blocks@[b].terminator == Some(u));
            }
            assert(f.is_placed(u));
            lemma_placed_valid_in(f, u);
            assert(f.reads(u, f.order()[q]));
            assert(users.contains(u));
            let j = choose|j: int| 0 <= j < users.len() && users[j] == u;
            if f.order().contains(u) {
                let r = choose|r: int| 0 <= r < f.order().len() && f.order()[r] == u;
                assert(f.users_of(f.order()[q]).contains(f.order()[r]));
                assert(q < r);
                lemma_dead_stable(f, q + 1, r);
                lemma_dead_stable(f, 0, r);
                assert(g.order().contains(u));
                assert(f.order().filter(not_in(f.dead_set())).contains(u));
                assert(!f.dead_set().contains(u));
            } else if f.dead_from(q + 1).contains(u) {
                lemma_dead_from_in_suffix(f, q + 1, u);
            }
            assert(pred(users[j]));
        }
    }
}

} // verus!
