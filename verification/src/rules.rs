//! Boolean rule engine over matched signature bits.
//!
//! A rule names a slice of a shared pool of post-order expression nodes;
//! children precede their parent, and evaluation runs left to right with a
//! fixed-depth boolean stack. Any stack underflow or overflow, and any walk
//! that does not end with exactly one value, yields `false` rather than a
//! panic, so a malformed rule can never take the engine down.

use vstd::prelude::*;

verus! {

/// Index into the global signature numbering.
pub type SigIdx = u16;

/// Number of distinct signature bits the match set can track.
pub const MAX_SIGNATURES: usize = 256;

/// Depth of the boolean evaluation stack.
pub const MAX_EVAL_STACK: usize = 16;

/// A node of a post-order rule expression.
///
/// `anyOf(sig0, allOf(sig1, sig2))` is encoded as
/// `[Sig(0), Sig(1), Sig(2), AllOf{count: 2}, AnyOf{count: 2}]`.
#[derive(Debug, Clone, Copy, PartialEq, Eq, Structural)]
pub enum ExprNode {
    /// Leaf: true when the signature at this index matched.
    Sig(SigIdx),
    /// OR over the preceding `count` results on the stack.
    AnyOf { count: u8 },
    /// AND over the preceding `count` results on the stack.
    AllOf { count: u8 },
    /// Invert the preceding result on the stack.
    Not,
}

/// A 256-bit set recording which signatures matched in one scan event.
#[derive(Debug, Clone, Copy)]
pub struct SigMatchSet {
    w0: u64,
    w1: u64,
    w2: u64,
    w3: u64,
}

impl SigMatchSet {
    /// The 64-bit word holding bit `4 * 64 > i >= 0`.
    spec fn spec_word(self, w: int) -> u64 {
        if w == 0 {
            self.w0
        } else if w == 1 {
            self.w1
        } else if w == 2 {
            self.w2
        } else {
            self.w3
        }
    }

    /// Whether signature index `i` is recorded as matched.
    pub closed spec fn spec_get(self, i: int) -> bool {
        &&& 0 <= i < 256
        &&& (self.spec_word(i / 64) >> ((i % 64) as u64)) & 1 == 1
    }

    /// Whether no signature is recorded as matched.
    pub open spec fn spec_is_empty(self) -> bool {
        forall|i: int| !self.spec_get(i)
    }

    /// Create an empty match set.
    pub fn new() -> (r: Self)
        ensures
            r.spec_is_empty(),
    {
        let r = Self { w0: 0, w1: 0, w2: 0, w3: 0 };
        proof {
            assert forall|i: int| !r.spec_get(i) by {
                if 0 <= i < 256 {
                    let k = (i % 64) as u64;
                    assert((0u64 >> k) & 1 == 0) by (bit_vector);
                }
            }
        }
        r
    }

    /// Mark a signature index as matched; indices past the last bit are
    /// ignored without effect.
    pub fn set(&mut self, idx: SigIdx)
        ensures
            forall|i: int|
                final(self).spec_get(i) == (old(self).spec_get(i) || (i == idx as int && idx
                    < 256)),
    {
        if idx < 256 {
            let w: u16 = idx / 64;
            let b: u64 = (idx % 64) as u64;
            if w == 0 {
                self.w0 = self.w0 | (1u64 << b);
            } else if w == 1 {
                self.w1 = self.w1 | (1u64 << b);
            } else if w == 2 {
                self.w2 = self.w2 | (1u64 << b);
            } else {
                self.w3 = self.w3 | (1u64 << b);
            }
            proof {
                let xold = old(self).spec_word(w as int);
                let xnew = final(self).spec_word(w as int);
                lemma_or_bit(xold, xnew, b);
                assert forall|i: int|
                    final(self).spec_get(i) == (old(self).spec_get(i) || (i == idx as int && idx
                        < 256)) by {
                    if 0 <= i < 256 {
                        let wi = i / 64;
                        let k = (i % 64) as u64;
                        vstd::arithmetic::div_mod::lemma_fundamental_div_mod(i, 64);
                        vstd::arithmetic::div_mod::lemma_fundamental_div_mod(idx as int, 64);
                        if wi == w as int {
                            assert((xnew >> k) & 1 == if k == b {
                                1u64
                            } else {
                                (xold >> k) & 1
                            });
                            assert(k == b <==> i == idx as int);
                        } else {
                            assert(final(self).spec_word(wi) == old(self).spec_word(wi));
                            assert(i != idx as int);
                        }
                    }
                }
            }
        }
    }

    /// Check whether a signature index is marked as matched.
    pub fn get(&self, idx: SigIdx) -> (r: bool)
        ensures
            r == self.spec_get(idx as int),
    {
        if idx < 256 {
            let w: u16 = idx / 64;
            let b: u64 = (idx % 64) as u64;
            let word: u64 = if w == 0 {
                self.w0
            } else if w == 1 {
                self.w1
            } else if w == 2 {
                self.w2
            } else {
                self.w3
            };
            (word >> b) & 1 == 1
        } else {
            false
        }
    }

    /// True when no signature is marked.
    pub fn is_empty(&self) -> (r: bool)
        ensures
            r == self.spec_is_empty(),
    {
        let r = self.w0 == 0 && self.w1 == 0 && self.w2 == 0 && self.w3 == 0;
        proof {
            lemma_zero_word_no_bits();
            if !r {
                let w: u64 = if self.w0 != 0 {
                    self.w0
                } else if self.w1 != 0 {
                    self.w1
                } else if self.w2 != 0 {
                    self.w2
                } else {
                    self.w3
                };
                let wi: int = if self.w0 != 0 {
                    0
                } else if self.w1 != 0 {
                    1
                } else if self.w2 != 0 {
                    2
                } else {
                    3
                };
                lemma_nonzero_word_has_bit(w);
                let k = choose|k: u64| k < 64 && (w >> k) & 1 == 1;
                let i = wi * 64 + k as int;
                assert(self.spec_get(i));
            }
        }
        r
    }
}

/// A word with no set bit is exactly the zero word.
proof fn lemma_zero_word_no_bits()
    by (bit_vector)
    ensures
        forall|k: u64| k < 64 ==> #[trigger] ((0u64 >> k) & 1) == 0,
{
}

/// Setting bit `b` of a word keeps every other bit and sets bit `b`.
proof fn lemma_or_bit(xold: u64, xnew: u64, b: u64)
    by (bit_vector)
    requires
        b < 64,
        xnew == xold | (1u64 << b),
    ensures
        forall|k: u64|
            k < 64 ==> #[trigger] ((xnew >> k) & 1) == if k == b {
                1u64
            } else {
                (xold >> k) & 1
            },
{
}

/// A named rule pointing at a slice of the shared expression pool.
#[derive(Debug, Clone, Copy)]
pub struct Rule {
    /// Human-readable rule name.
    pub name: &'static str,
    /// Starting offset into the shared node pool.
    pub expr_start: u16,
    /// Number of expression nodes belonging to this rule.
    pub expr_len: u16,
}

/// A compiled rule database: one shared pool of expression nodes and the
/// rules that reference slices of it.
#[derive(Debug)]
pub struct RuleDb {
    /// Shared pool of expression nodes, all rules' nodes concatenated.
    pub nodes: Vec<ExprNode>,
    /// Rule definitions referencing slices of `nodes`.
    pub rules: Vec<Rule>,
}

impl RuleDb {
    /// Every rule's node range lies inside the shared pool.
    pub open spec fn wf(self) -> bool {
        forall|i: int|
            0 <= i < self.rules@.len() ==> (#[trigger] self.rules@[i]).expr_start
                + self.rules@[i].expr_len <= self.nodes@.len()
    }

    /// The node slice belonging to rule `i`.
    pub open spec fn spec_rule_nodes(self, i: int) -> Seq<ExprNode> {
        self.nodes@.subrange(
            self.rules@[i].expr_start as int,
            self.rules@[i].expr_start + self.rules@[i].expr_len,
        )
    }

    /// Whether rule `i` fires on the given match set. A rule whose node
    /// range runs past the pool never fires.
    pub open spec fn spec_rule_fires(self, i: int, m: SigMatchSet) -> bool {
        &&& self.rules@[i].expr_start + self.rules@[i].expr_len <= self.nodes@.len()
        &&& spec_eval_rule(self.spec_rule_nodes(i), m)
    }
}

/// OR over every value of a stack segment.
pub open spec fn stack_any(s: Seq<bool>) -> bool {
    exists|i: int| 0 <= i < s.len() && s[i]
}

/// AND over every value of a stack segment.
pub open spec fn stack_all(s: Seq<bool>) -> bool {
    forall|i: int| 0 <= i < s.len() ==> s[i]
}

/// One step of the post-order walk: how a node transforms the boolean
/// stack, or `None` on stack underflow or overflow.
pub open spec fn eval_step(stack: Seq<bool>, node: ExprNode, m: SigMatchSet) -> Option<
    Seq<bool>,
> {
    match node {
        ExprNode::Sig(idx) => if stack.len() >= MAX_EVAL_STACK {
            None
        } else {
            Some(stack.push(m.spec_get(idx as int)))
        },
        ExprNode::AnyOf { count } => if stack.len() < count || stack.len() - count
            >= MAX_EVAL_STACK {
            None
        } else {
            Some(
                stack.take(stack.len() - count).push(
                    stack_any(stack.skip(stack.len() - count)),
                ),
            )
        },
        ExprNode::AllOf { count } => if stack.len() < count || stack.len() - count
            >= MAX_EVAL_STACK {
            None
        } else {
            Some(
                stack.take(stack.len() - count).push(
                    stack_all(stack.skip(stack.len() - count)),
                ),
            )
        },
        ExprNode::Not => if stack.len() < 1 {
            None
        } else {
            Some(stack.take(stack.len() - 1).push(!stack.last()))
        },
    }
}

/// The stack after walking a node sequence from a starting stack, or
/// `None` once any step fails.
pub open spec fn eval_nodes(stack: Seq<bool>, nodes: Seq<ExprNode>, m: SigMatchSet) -> Option<
    Seq<bool>,
>
    decreases nodes.len(),
{
    if nodes.len() == 0 {
        Some(stack)
    } else {
        match eval_step(stack, nodes[0], m) {
            None => None,
            Some(s) => eval_nodes(s, nodes.drop_first(), m),
        }
    }
}

/// What an expression evaluates to: the walk must start from an empty
/// stack, never fail, and end with exactly one `true` on the stack.
/// Empty expressions evaluate to false.
pub open spec fn spec_eval_rule(nodes: Seq<ExprNode>, m: SigMatchSet) -> bool {
    &&& nodes.len() > 0
    &&& match eval_nodes(Seq::empty(), nodes, m) {
        Some(s) => s.len() == 1 && s[0],
        None => false,
    }
}

/// Walking `nodes + [node]` is walking `nodes`, then stepping on `node`.
pub proof fn lemma_eval_nodes_snoc(
    stack: Seq<bool>,
    nodes: Seq<ExprNode>,
    node: ExprNode,
    m: SigMatchSet,
)
    ensures
        eval_nodes(stack, nodes.push(node), m) == match eval_nodes(stack, nodes, m) {
            None => None::<Seq<bool>>,
            Some(s) => eval_step(s, node, m),
        },
    decreases nodes.len(),
{
    if nodes.len() == 0 {
        assert(nodes.push(node)[0] == node);
        assert(nodes.push(node).drop_first() =~= Seq::<ExprNode>::empty());
        match eval_step(stack, node, m) {
            None => {},
            Some(s) => {
                assert(eval_nodes(s, Seq::<ExprNode>::empty(), m) == Some(s));
            },
        }
    } else {
        assert(nodes.push(node)[0] == nodes[0]);
        assert(nodes.push(node).drop_first() =~= nodes.drop_first().push(node));
        match eval_step(stack, nodes[0], m) {
            None => {},
            Some(s) => {
                lemma_eval_nodes_snoc(s, nodes.drop_first(), node, m);
            },
        }
    }
}

/// Appending one value to a stack segment ORs it into `stack_any`.
proof fn lemma_stack_any_push(s: Seq<bool>, x: bool)
    ensures
        stack_any(s.push(x)) == (stack_any(s) || x),
{
    if stack_any(s) {
        let i = choose|i: int| 0 <= i < s.len() && s[i];
        assert(s.push(x)[i]);
    }
    if x {
        assert(s.push(x)[s.len() as int]);
    }
    if stack_any(s.push(x)) {
        let i = choose|i: int| 0 <= i < s.push(x).len() && s.push(x)[i];
        if i < s.len() {
            assert(s[i]);
        }
    }
}

/// Appending one value to a stack segment ANDs it into `stack_all`.
proof fn lemma_stack_all_push(s: Seq<bool>, x: bool)
    ensures
        stack_all(s.push(x)) == (stack_all(s) && x),
{
    if stack_all(s) && x {
        assert forall|i: int| 0 <= i < s.push(x).len() implies s.push(x)[i] by {
            if i < s.len() {
                assert(s[i]);
            }
        }
    }
    if stack_all(s.push(x)) {
        assert forall|i: int| 0 <= i < s.len() implies s[i] by {
            assert(s.push(x)[i]);
        }
        assert(s.push(x)[s.len() as int]);
    }
}

/// Walking a concatenation is walking the first part, then the second.
pub proof fn lemma_eval_nodes_concat(
    stack: Seq<bool>,
    a: Seq<ExprNode>,
    b: Seq<ExprNode>,
    m: SigMatchSet,
)
    ensures
        eval_nodes(stack, a + b, m) == match eval_nodes(stack, a, m) {
            None => None::<Seq<bool>>,
            Some(s) => eval_nodes(s, b, m),
        },
    decreases a.len(),
{
    if a.len() == 0 {
        assert(a + b =~= b);
    } else {
        assert((a + b)[0] == a[0]);
        assert((a + b).drop_first() =~= a.drop_first() + b);
        match eval_step(stack, a[0], m) {
            None => {},
            Some(s) => {
                lemma_eval_nodes_concat(s, a.drop_first(), b, m);
            },
        }
    }
}

/// Once a prefix of the walk has failed, the whole walk fails.
proof fn lemma_prefix_none(nodes: Seq<ExprNode>, j: int, m: SigMatchSet)
    requires
        0 <= j < nodes.len(),
        eval_nodes(Seq::empty(), nodes.take(j + 1), m) is None,
    ensures
        eval_nodes(Seq::empty(), nodes, m) is None,
{
    assert(nodes =~= nodes.take(j + 1) + nodes.skip(j + 1));
    lemma_eval_nodes_concat(Seq::empty(), nodes.take(j + 1), nodes.skip(j + 1), m);
}

/// Evaluate a single post-order expression against the matched signature
/// set. Underflow, overflow, an empty expression, and a walk that leaves
/// more than one value all yield `false`.
pub fn evaluate_rule(nodes: &[ExprNode], matched: &SigMatchSet) -> (r: bool)
    ensures
        r == spec_eval_rule(nodes@, *matched),
{
    if nodes.len() == 0 {
        return false;
    }
    let ghost m = *matched;
    let mut stack: Vec<bool> = Vec::new();
    let n = nodes.len();
    let mut j: usize = 0;
    assert(nodes@.take(0) =~= Seq::<ExprNode>::empty());
    while j < n
        invariant
            n == nodes@.len(),
            j <= n,
            m == *matched,
            stack@.len() <= MAX_EVAL_STACK,
            eval_nodes(Seq::empty(), nodes@.take(j as int), m) == Some(stack@),
        decreases n - j,
    {
        proof {
            assert(nodes@.take(j + 1) =~= nodes@.take(j as int).push(nodes@[j as int]));
            lemma_eval_nodes_snoc(Seq::empty(), nodes@.take(j as int), nodes@[j as int], m);
        }
        let node = *vstd::slice::slice_index_get(nodes, j);
        match node {
            ExprNode::Sig(idx) => {
                if stack.len() >= MAX_EVAL_STACK {
                    proof {
                        lemma_prefix_none(nodes@, j as int, m);
                    }
                    return false;
                }
                stack.push(matched.get(idx));
            },
            ExprNode::AnyOf { count } => {
                let count = count as usize;
                if stack.len() < count {
                    proof {
                        lemma_prefix_none(nodes@, j as int, m);
                    }
                    return false;
                }
                let start = stack.len() - count;
                let mut any = false;
                let mut k = start;
                while k < stack.len()
                    invariant
                        start <= k <= stack@.len(),
                        any == stack_any(stack@.subrange(start as int, k as int)),
                    decreases stack@.len() - k,
                {
                    proof {
                        assert(stack@.subrange(start as int, k + 1) =~= stack@.subrange(
                            start as int,
                            k as int,
                        ).push(stack@[k as int]));
                        lemma_stack_any_push(
                            stack@.subrange(start as int, k as int),
                            stack@[k as int],
                        );
                    }
                    if stack[k] {
                        any = true;
                    }
                    k += 1;
                }
                assert(stack@.subrange(start as int, stack@.len() as int) =~= stack@.skip(
                    start as int,
                ));
                stack.truncate(start);
                if stack.len() >= MAX_EVAL_STACK {
                    proof {
                        lemma_prefix_none(nodes@, j as int, m);
                    }
                    return false;
                }
                stack.push(any);
            },
            ExprNode::AllOf { count } => {
                let count = count as usize;
                if stack.len() < count {
                    proof {
                        lemma_prefix_none(nodes@, j as int, m);
                    }
                    return false;
                }
                let start = stack.len() - count;
                let mut all = true;
                let mut k = start;
                while k < stack.len()
                    invariant
                        start <= k <= stack@.len(),
                        all == stack_all(stack@.subrange(start as int, k as int)),
                    decreases stack@.len() - k,
                {
                    proof {
                        assert(stack@.subrange(start as int, k + 1) =~= stack@.subrange(
                            start as int,
                            k as int,
                        ).push(stack@[k as int]));
                        lemma_stack_all_push(
                            stack@.subrange(start as int, k as int),
                            stack@[k as int],
                        );
                    }
                    if !stack[k] {
                        all = false;
                    }
                    k += 1;
                }
                assert(stack@.subrange(start as int, stack@.len() as int) =~= stack@.skip(
                    start as int,
                ));
                stack.truncate(start);
                if stack.len() >= MAX_EVAL_STACK {
                    proof {
                        lemma_prefix_none(nodes@, j as int, m);
                    }
                    return false;
                }
                stack.push(all);
            },
            ExprNode::Not => {
                match stack.pop() {
                    Some(val) => {
                        stack.push(!val);
                        proof {
                            let prev = eval_nodes(
                                Seq::empty(),
                                nodes@.take(j as int),
                                m,
                            ).unwrap();
                            assert(stack@ =~= prev.take(prev.len() - 1).push(!prev.last()));
                        }
                    },
                    None => {
                        proof {
                            lemma_prefix_none(nodes@, j as int, m);
                        }
                        return false;
                    },
                }
            },
        }
        j += 1;
    }
    assert(nodes@.take(n as int) =~= nodes@);
    stack.len() == 1 && stack[0]
}

/// The indices of the rules among the first `n` that fire, in rule
/// order, keeping only the first four.
pub open spec fn spec_fired_indices(db: RuleDb, m: SigMatchSet, n: int) -> Seq<u16>
    decreases n,
{
    if n <= 0 {
        Seq::empty()
    } else {
        let p = spec_fired_indices(db, m, n - 1);
        if db.spec_rule_fires(n - 1, m) && p.len() < 4 {
            p.push((n - 1) as u16)
        } else {
            p
        }
    }
}

/// The fired-index list never exceeds four entries.
pub proof fn lemma_fired_indices_len(db: RuleDb, m: SigMatchSet, n: int)
    ensures
        spec_fired_indices(db, m, n).len() <= 4,
    decreases n,
{
    if n > 0 {
        lemma_fired_indices_len(db, m, n - 1);
    }
}

/// Evaluate every rule of a database against the matched signature set.
///
/// Returns the indices (into `db.rules`) of the rules that fired, in
/// rule order, keeping only the first four.
pub fn evaluate_rules(db: &RuleDb, matched: &SigMatchSet) -> (r: Vec<u16>)
    requires
        db.rules@.len() <= 65535,
    ensures
        r@ == spec_fired_indices(*db, *matched, db.rules@.len() as int),
        r@.len() <= 4,
{
    let mut result: Vec<u16> = Vec::new();
    let n = db.rules.len();
    let mut i: usize = 0;
    while i < n
        invariant
            n == db.rules@.len(),
            n <= 65535,
            i <= n,
            result@.len() <= 4,
            result@ == spec_fired_indices(*db, *matched, i as int),
        decreases n - i,
    {
        let rule = db.rules[i];
        let start = rule.expr_start as usize;
        let len = rule.expr_len as usize;
        if start + len <= db.nodes.len() {
            let nodes = vstd::slice::slice_subrange(db.nodes.as_slice(), start, start + len);
            if evaluate_rule(nodes, matched) {
                if result.len() < 4 {
                    result.push(i as u16);
                }
            }
        }
        i += 1;
    }
    result
}

// ── Algebraic laws of the rule language ─────────────────────────────

/// The expression encoding of a flat list of signature leaves.
pub open spec fn sig_nodes(ss: Seq<SigIdx>) -> Seq<ExprNode> {
    ss.map_values(|s: SigIdx| ExprNode::Sig(s))
}

/// The truth values of a list of signature leaves under a match set.
pub open spec fn sig_values(ss: Seq<SigIdx>, m: SigMatchSet) -> Seq<bool> {
    ss.map_values(|s: SigIdx| m.spec_get(s as int))
}

/// Walking a list of signature leaves pushes their truth values.
proof fn lemma_eval_sig_leaves(ss: Seq<SigIdx>, m: SigMatchSet)
    requires
        ss.len() <= MAX_EVAL_STACK,
    ensures
        eval_nodes(Seq::empty(), sig_nodes(ss), m) == Some(sig_values(ss, m)),
    decreases ss.len(),
{
    if ss.len() == 0 {
        assert(sig_nodes(ss) =~= Seq::<ExprNode>::empty());
        assert(sig_values(ss, m) =~= Seq::<bool>::empty());
    } else {
        let prefix = ss.drop_last();
        lemma_eval_sig_leaves(prefix, m);
        assert(sig_nodes(ss) =~= sig_nodes(prefix).push(ExprNode::Sig(ss.last())));
        lemma_eval_nodes_snoc(Seq::empty(), sig_nodes(prefix), ExprNode::Sig(ss.last()), m);
        assert(sig_values(prefix, m).push(m.spec_get(ss.last() as int)) =~= sig_values(ss, m));
    }
}

/// `anyOf` over a flat list of signature leaves holds exactly when some
/// leaf matched — so its value depends only on which leaves occur, never
/// on their order.
pub proof fn lemma_anyof_sigs(ss: Seq<SigIdx>, m: SigMatchSet)
    requires
        ss.len() <= MAX_EVAL_STACK,
    ensures
        spec_eval_rule(sig_nodes(ss).push(ExprNode::AnyOf { count: ss.len() as u8 }), m) == (
        exists|i: int| 0 <= i < ss.len() && m.spec_get(ss[i] as int)),
{
    lemma_eval_sig_leaves(ss, m);
    let node = ExprNode::AnyOf { count: ss.len() as u8 };
    lemma_eval_nodes_snoc(Seq::empty(), sig_nodes(ss), node, m);
    let vals = sig_values(ss, m);
    assert(vals.take(0) =~= Seq::<bool>::empty());
    assert(vals.skip(0) =~= vals);
    if stack_any(vals) {
        let i = choose|i: int| 0 <= i < vals.len() && vals[i];
        assert(m.spec_get(ss[i] as int));
    }
    if exists|i: int| 0 <= i < ss.len() && m.spec_get(ss[i] as int) {
        let i = choose|i: int| 0 <= i < ss.len() && m.spec_get(ss[i] as int);
        assert(vals[i]);
    }
}

/// `allOf` over a flat list of signature leaves holds exactly when every
/// leaf matched — so its value depends only on which leaves occur, never
/// on their order.
pub proof fn lemma_allof_sigs(ss: Seq<SigIdx>, m: SigMatchSet)
    requires
        ss.len() <= MAX_EVAL_STACK,
    ensures
        spec_eval_rule(sig_nodes(ss).push(ExprNode::AllOf { count: ss.len() as u8 }), m) == (
        forall|i: int| 0 <= i < ss.len() ==> m.spec_get(ss[i] as int)),
{
    lemma_eval_sig_leaves(ss, m);
    let node = ExprNode::AllOf { count: ss.len() as u8 };
    lemma_eval_nodes_snoc(Seq::empty(), sig_nodes(ss), node, m);
    let vals = sig_values(ss, m);
    assert(vals.take(0) =~= Seq::<bool>::empty());
    assert(vals.skip(0) =~= vals);
    if stack_all(vals) {
        assert forall|i: int| 0 <= i < ss.len() implies m.spec_get(ss[i] as int) by {
            assert(vals[i]);
        }
    }
    if forall|i: int| 0 <= i < ss.len() ==> m.spec_get(ss[i] as int) {
        assert forall|i: int| 0 <= i < vals.len() implies vals[i] by {
            assert(m.spec_get(ss[i] as int));
        }
    }
}

/// `anyOf` is commutative: two flat leaf lists with the same leaves in any
/// order evaluate alike under every match set.
pub proof fn lemma_anyof_commutative(ss1: Seq<SigIdx>, ss2: Seq<SigIdx>, m: SigMatchSet)
    requires
        ss1.len() <= MAX_EVAL_STACK,
        ss1.to_multiset() == ss2.to_multiset(),
    ensures
        spec_eval_rule(sig_nodes(ss1).push(ExprNode::AnyOf { count: ss1.len() as u8 }), m)
            == spec_eval_rule(
            sig_nodes(ss2).push(ExprNode::AnyOf { count: ss2.len() as u8 }),
            m,
        ),
{
    ss1.to_multiset_ensures();
    ss2.to_multiset_ensures();
    lemma_anyof_sigs(ss1, m);
    lemma_anyof_sigs(ss2, m);
    lemma_exists_matched_same(ss1, ss2, m);
    lemma_exists_matched_same(ss2, ss1, m);
}

/// `allOf` is commutative: two flat leaf lists with the same leaves in any
/// order evaluate alike under every match set.
pub proof fn lemma_allof_commutative(ss1: Seq<SigIdx>, ss2: Seq<SigIdx>, m: SigMatchSet)
    requires
        ss1.len() <= MAX_EVAL_STACK,
        ss1.to_multiset() == ss2.to_multiset(),
    ensures
        spec_eval_rule(sig_nodes(ss1).push(ExprNode::AllOf { count: ss1.len() as u8 }), m)
            == spec_eval_rule(
            sig_nodes(ss2).push(ExprNode::AllOf { count: ss2.len() as u8 }),
            m,
        ),
{
    ss1.to_multiset_ensures();
    ss2.to_multiset_ensures();
    lemma_allof_sigs(ss1, m);
    lemma_allof_sigs(ss2, m);
    assert forall|i: int| 0 <= i < ss2.len() && !m.spec_get(ss2[i] as int) implies exists|j: int|
        0 <= j < ss1.len() && !m.spec_get(ss1[j] as int) by {
        assert(ss2.contains(ss2[i]));
        assert(ss2.to_multiset().count(ss2[i]) > 0);
        assert(ss1.to_multiset().count(ss2[i]) > 0);
        assert(ss1.contains(ss2[i]));
        let j = choose|j: int| 0 <= j < ss1.len() && ss1[j] == ss2[i];
        assert(!m.spec_get(ss1[j] as int));
    }
    assert forall|i: int| 0 <= i < ss1.len() && !m.spec_get(ss1[i] as int) implies exists|j: int|
        0 <= j < ss2.len() && !m.spec_get(ss2[j] as int) by {
        assert(ss1.contains(ss1[i]));
        assert(ss1.to_multiset().count(ss1[i]) > 0);
        assert(ss2.to_multiset().count(ss1[i]) > 0);
        assert(ss2.contains(ss1[i]));
        let j = choose|j: int| 0 <= j < ss2.len() && ss2[j] == ss1[i];
        assert(!m.spec_get(ss2[j] as int));
    }
}

/// A matched leaf in one list has a matched counterpart in a list with the
/// same multiset of leaves.
proof fn lemma_exists_matched_same(ss1: Seq<SigIdx>, ss2: Seq<SigIdx>, m: SigMatchSet)
    requires
        ss1.to_multiset() == ss2.to_multiset(),
    ensures
        (exists|i: int| 0 <= i < ss1.len() && m.spec_get(ss1[i] as int)) ==> (exists|j: int|
            0 <= j < ss2.len() && m.spec_get(ss2[j] as int)),
{
    ss1.to_multiset_ensures();
    ss2.to_multiset_ensures();
    if exists|i: int| 0 <= i < ss1.len() && m.spec_get(ss1[i] as int) {
        let i = choose|i: int| 0 <= i < ss1.len() && m.spec_get(ss1[i] as int);
        assert(ss1.contains(ss1[i]));
        assert(ss1.to_multiset().count(ss1[i]) > 0);
        assert(ss2.to_multiset().count(ss1[i]) > 0);
        assert(ss2.contains(ss1[i]));
        let j = choose|j: int| 0 <= j < ss2.len() && ss2[j] == ss1[i];
        assert(m.spec_get(ss2[j] as int));
    }
}

/// Double negation is the identity: appending `Not` twice to any
/// expression leaves its value unchanged, under every match set.
pub proof fn lemma_double_not(e: Seq<ExprNode>, m: SigMatchSet)
    ensures
        spec_eval_rule(e.push(ExprNode::Not).push(ExprNode::Not), m) == spec_eval_rule(e, m),
{
    lemma_eval_nodes_snoc(Seq::empty(), e.push(ExprNode::Not), ExprNode::Not, m);
    lemma_eval_nodes_snoc(Seq::empty(), e, ExprNode::Not, m);
    match eval_nodes(Seq::empty(), e, m) {
        None => {},
        Some(s) => {
            if s.len() >= 1 {
                let s1 = s.take(s.len() - 1).push(!s.last());
                let s2 = s1.take(s1.len() - 1).push(!s1.last());
                assert(s1.len() == s.len());
                if s.len() == 1 {
                    assert(s2 =~= s);
                }
            }
        },
    }
}

/// De Morgan: `not(anyOf(a, b))` equals `allOf(not(a), not(b))` under
/// every match set.
pub proof fn lemma_de_morgan_not_anyof(a: SigIdx, b: SigIdx, m: SigMatchSet)
    ensures
        spec_eval_rule(
            seq![
                ExprNode::Sig(a),
                ExprNode::Sig(b),
                ExprNode::AnyOf { count: 2 },
                ExprNode::Not,
            ],
            m,
        ) == spec_eval_rule(
            seq![
                ExprNode::Sig(a),
                ExprNode::Not,
                ExprNode::Sig(b),
                ExprNode::Not,
                ExprNode::AllOf { count: 2 },
            ],
            m,
        ),
{
    let ga = m.spec_get(a as int);
    let gb = m.spec_get(b as int);
    lemma_eval_two_sigs_combine(a, b, m);
    lemma_eval_two_negated_sigs_combine(a, b, m);
}

/// De Morgan, dually: `not(allOf(a, b))` equals `anyOf(not(a), not(b))`
/// under every match set.
pub proof fn lemma_de_morgan_not_allof(a: SigIdx, b: SigIdx, m: SigMatchSet)
    ensures
        spec_eval_rule(
            seq![
                ExprNode::Sig(a),
                ExprNode::Sig(b),
                ExprNode::AllOf { count: 2 },
                ExprNode::Not,
            ],
            m,
        ) == spec_eval_rule(
            seq![
                ExprNode::Sig(a),
                ExprNode::Not,
                ExprNode::Sig(b),
                ExprNode::Not,
                ExprNode::AnyOf { count: 2 },
            ],
            m,
        ),
{
    lemma_eval_two_sigs_combine(a, b, m);
    lemma_eval_two_negated_sigs_combine(a, b, m);
}

/// Evaluate the four-node forms `[a, b, anyOf/allOf{2}, not]`.
proof fn lemma_eval_two_sigs_combine(a: SigIdx, b: SigIdx, m: SigMatchSet)
    ensures
        spec_eval_rule(
            seq![
                ExprNode::Sig(a),
                ExprNode::Sig(b),
                ExprNode::AnyOf { count: 2 },
                ExprNode::Not,
            ],
            m,
        ) == !(m.spec_get(a as int) || m.spec_get(b as int)),
        spec_eval_rule(
            seq![
                ExprNode::Sig(a),
                ExprNode::Sig(b),
                ExprNode::AllOf { count: 2 },
                ExprNode::Not,
            ],
            m,
        ) == !(m.spec_get(a as int) && m.spec_get(b as int)),
{
    let ga = m.spec_get(a as int);
    let gb = m.spec_get(b as int);
    let two = seq![ExprNode::Sig(a), ExprNode::Sig(b)];
    let vals = seq![ga, gb];
    assert(two =~= sig_nodes(seq![a, b]));
    lemma_eval_sig_leaves(seq![a, b], m);
    assert(sig_values(seq![a, b], m) =~= vals);
    lemma_two_values_any_all(ga, gb);
    let e_any = two.push(ExprNode::AnyOf { count: 2 });
    let e_all = two.push(ExprNode::AllOf { count: 2 });
    lemma_eval_nodes_snoc(Seq::empty(), two, ExprNode::AnyOf { count: 2 }, m);
    lemma_eval_nodes_snoc(Seq::empty(), two, ExprNode::AllOf { count: 2 }, m);
    assert(vals.take(0) =~= Seq::<bool>::empty());
    assert(vals.skip(0) =~= vals);
    lemma_eval_nodes_snoc(Seq::empty(), e_any, ExprNode::Not, m);
    lemma_eval_nodes_snoc(Seq::empty(), e_all, ExprNode::Not, m);
    assert(e_any.push(ExprNode::Not) =~= seq![
        ExprNode::Sig(a),
        ExprNode::Sig(b),
        ExprNode::AnyOf { count: 2 },
        ExprNode::Not,
    ]);
    assert(e_all.push(ExprNode::Not) =~= seq![
        ExprNode::Sig(a),
        ExprNode::Sig(b),
        ExprNode::AllOf { count: 2 },
        ExprNode::Not,
    ]);
    let s_any = Seq::<bool>::empty().push(stack_any(vals));
    assert(s_any.take(s_any.len() - 1).push(!s_any.last()) =~= seq![!(ga || gb)]);
    let s_all = Seq::<bool>::empty().push(stack_all(vals));
    assert(s_all.take(s_all.len() - 1).push(!s_all.last()) =~= seq![!(ga && gb)]);
}

/// Evaluate the five-node forms `[a, not, b, not, anyOf/allOf{2}]`.
proof fn lemma_eval_two_negated_sigs_combine(a: SigIdx, b: SigIdx, m: SigMatchSet)
    ensures
        spec_eval_rule(
            seq![
                ExprNode::Sig(a),
                ExprNode::Not,
                ExprNode::Sig(b),
                ExprNode::Not,
                ExprNode::AnyOf { count: 2 },
            ],
            m,
        ) == (!m.spec_get(a as int) || !m.spec_get(b as int)),
        spec_eval_rule(
            seq![
                ExprNode::Sig(a),
                ExprNode::Not,
                ExprNode::Sig(b),
                ExprNode::Not,
                ExprNode::AllOf { count: 2 },
            ],
            m,
        ) == (!m.spec_get(a as int) && !m.spec_get(b as int)),
{
    let ga = m.spec_get(a as int);
    let gb = m.spec_get(b as int);
    let e1 = seq![ExprNode::Sig(a)];
    assert(e1 =~= Seq::<ExprNode>::empty().push(ExprNode::Sig(a)));
    lemma_eval_nodes_snoc(Seq::empty(), Seq::empty(), ExprNode::Sig(a), m);
    assert(eval_nodes(Seq::empty(), Seq::<ExprNode>::empty(), m) == Some(Seq::<bool>::empty()));
    let e2 = e1.push(ExprNode::Not);
    lemma_eval_nodes_snoc(Seq::empty(), e1, ExprNode::Not, m);
    let s1 = Seq::<bool>::empty().push(ga);
    assert(s1.take(s1.len() - 1).push(!s1.last()) =~= seq![!ga]);
    let e3 = e2.push(ExprNode::Sig(b));
    lemma_eval_nodes_snoc(Seq::empty(), e2, ExprNode::Sig(b), m);
    let e4 = e3.push(ExprNode::Not);
    lemma_eval_nodes_snoc(Seq::empty(), e3, ExprNode::Not, m);
    let s3 = seq![!ga].push(gb);
    assert(s3.take(s3.len() - 1).push(!s3.last()) =~= seq![!ga, !gb]);
    let vals = seq![!ga, !gb];
    lemma_two_values_any_all(!ga, !gb);
    lemma_eval_nodes_snoc(Seq::empty(), e4, ExprNode::AnyOf { count: 2 }, m);
    lemma_eval_nodes_snoc(Seq::empty(), e4, ExprNode::AllOf { count: 2 }, m);
    assert(vals.take(0) =~= Seq::<bool>::empty());
    assert(vals.skip(0) =~= vals);
    assert(e4.push(ExprNode::AnyOf { count: 2 }) =~= seq![
        ExprNode::Sig(a),
        ExprNode::Not,
        ExprNode::Sig(b),
        ExprNode::Not,
        ExprNode::AnyOf { count: 2 },
    ]);
    assert(e4.push(ExprNode::AllOf { count: 2 }) =~= seq![
        ExprNode::Sig(a),
        ExprNode::Not,
        ExprNode::Sig(b),
        ExprNode::Not,
        ExprNode::AllOf { count: 2 },
    ]);
}

/// `stack_any` and `stack_all` of a two-value stack are OR and AND.
proof fn lemma_two_values_any_all(x: bool, y: bool)
    ensures
        stack_any(seq![x, y]) == (x || y),
        stack_all(seq![x, y]) == (x && y),
{
    let s = seq![x, y];
    if x {
        assert(s[0]);
    }
    if y {
        assert(s[1]);
    }
    if stack_any(s) {
        let i = choose|i: int| 0 <= i < s.len() && s[i];
        assert(i == 0 || i == 1);
    }
    if stack_all(s) {
        assert(s[0] && s[1]);
    }
    if x && y {
        assert forall|i: int| 0 <= i < s.len() implies s[i] by {
            assert(i == 0 || i == 1);
        }
    }
}

/// A nonzero word has a set bit.
proof fn lemma_nonzero_word_has_bit(w: u64)
    requires
        w != 0,
    ensures
        exists|k: u64| k < 64 && (w >> k) & 1 == 1,
    decreases w,
{
    if w & 1 == 1 {
        assert((w >> 0u64) & 1 == 1) by (bit_vector)
            requires
                w & 1 == 1,
        ;
        assert(0u64 < 64 && (w >> 0u64) & 1 == 1);
    } else {
        assert(w >> 1u64 != 0 && w >> 1u64 < w) by (bit_vector)
            requires
                w != 0 && w & 1 != 1,
        ;
        lemma_nonzero_word_has_bit(w >> 1u64);
        let k = choose|k: u64| k < 64 && ((w >> 1u64) >> k) & 1 == 1;
        assert(((w >> 1u64) >> k) & 1 == if k < 63 {
            (w >> (k + 1) as u64) & 1
        } else {
            0u64
        }) by (bit_vector);
        assert(((k + 1) as u64) < 64 && (w >> ((k + 1) as u64)) & 1 == 1);
    }
}

} // verus!
