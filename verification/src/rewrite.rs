//! Rewrites of a physical plan that give its partial aggregate a second input.
//!
//! Some rows of an aggregate need no scan: they can be counted from file metadata or answered from
//! an index. Such rows come from an extra input that already has the shape of the partial
//! aggregate's output, and a union puts the two together.

use std::sync::Arc;
use vstd::prelude::*;

verus! {

/// How an aggregate takes part in a distributed aggregation.
#[derive(Clone, Copy, Debug, PartialEq, Eq, Structural)]
pub enum AggregateMode {
    Partial,
    PartialReduce,
    Final,
    FinalPartitioned,
    Single,
    SinglePartitioned,
}

/// The operator of a plan node.
pub enum Operator<P, S, X> {
    /// An operator as the planner made it.
    Planned {
        /// The planner's own node.
        handle: P,
        name: String,
        /// The mode of an aggregate; no other operator has one.
        mode: Option<AggregateMode>,
        /// The schema of what the operator puts out.
        schema: Arc<S>,
    },
    /// The rows of all children.
    Union,
    /// An extra input, with the schema of the aggregate that it stands beside.
    Extra { input: X, schema: Arc<S> },
}

/// A physical plan.
pub struct Plan<P, S, X> {
    pub operator: Operator<P, S, X>,
    pub children: Vec<Plan<P, S, X>>,
}

/// A plan as a tree.
#[verifier::ext_equal]
pub struct PlanTree<P, S, X> {
    pub operator: Operator<P, S, X>,
    pub children: Seq<PlanTree<P, S, X>>,
}

/// The name of aggregate operators.
pub open spec fn aggregate_name() -> Seq<char> {
    "AggregateExec"@
}

impl<P, S, X> Operator<P, S, X> {
    /// The operator computes a partial aggregate.
    pub open spec fn is_partial_aggregate(self) -> bool {
        self matches Operator::Planned { name, mode, .. } && name@ == aggregate_name() && mode
            == Some(AggregateMode::Partial)
    }

    /// An operator with the name of an aggregate has a mode.
    pub open spec fn wf(self) -> bool {
        self matches Operator::Planned { name, mode, .. } ==> (name@ == aggregate_name() ==> mode
            is Some)
    }
}

impl<P, S, X> Plan<P, S, X> {
    /// The plan as a tree.
    pub open spec fn tree(self) -> PlanTree<P, S, X>
        decreases self,
    {
        PlanTree {
            operator: self.operator,
            children: Seq::new(
                self.children@.len(),
                |i: int|
                    if 0 <= i < self.children@.len() {
                        self.children@[i].tree()
                    } else {
                        arbitrary()
                    },
            ),
        }
    }
}

/// The trees of a list of plans.
pub open spec fn trees<P, S, X>(plans: Seq<Plan<P, S, X>>) -> Seq<PlanTree<P, S, X>> {
    Seq::new(plans.len(), |i: int| plans[i].tree())
}

/// The operators of a plan in the order of a walk from the leaves up, left to right.
pub open spec fn post_order<P, S, X>(plan: PlanTree<P, S, X>) -> Seq<Operator<P, S, X>>
    decreases plan,
{
    post_order_all(plan.children).push(plan.operator)
}

/// The operators of a list of plans, one plan after the other.
pub open spec fn post_order_all<P, S, X>(plans: Seq<PlanTree<P, S, X>>) -> Seq<Operator<P, S, X>>
    decreases plans,
{
    if plans.len() == 0 {
        Seq::empty()
    } else {
        post_order_all(plans.drop_last()) + post_order(plans.last())
    }
}

/// Every operator that the walk comes to is as it should be. What lies behind the first partial
/// aggregate is not looked at.
pub open spec fn walk_is_sound<P, S, X>(operators: Seq<Operator<P, S, X>>) -> bool {
    forall|i: int|
        0 <= i < operators.len() && no_partial_before(operators, i)
            ==> (#[trigger] operators[i]).wf()
}

/// The walk has not come to a partial aggregate before position `i`.
pub open spec fn no_partial_before<P, S, X>(operators: Seq<Operator<P, S, X>>, i: int) -> bool {
    forall|j: int| 0 <= j < i ==> !(#[trigger] operators[j]).is_partial_aggregate()
}

/// A partial aggregate beside an extra input.
pub open spec fn beside<P, S, X>(aggregate: PlanTree<P, S, X>, input: X) -> PlanTree<P, S, X> {
    PlanTree {
        operator: Operator::Union,
        children: seq![
            aggregate,
            PlanTree {
                operator: Operator::Extra {
                    input,
                    schema: aggregate.operator->Planned_schema,
                },
                children: Seq::empty(),
            },
        ],
    }
}

/// The plan with `input` beside the first partial aggregate that a walk from the leaves up, left
/// to right, comes to; `None` if the plan has no partial aggregate.
pub open spec fn united<P, S, X>(plan: PlanTree<P, S, X>, input: X) -> Option<PlanTree<P, S, X>>
    decreases plan,
{
    match united_among(plan.children, input) {
        Some(children) => Some(PlanTree { operator: plan.operator, children }),
        None => if plan.operator.is_partial_aggregate() {
            Some(beside(plan, input))
        } else {
            None
        },
    }
}

/// A list of plans, with `input` beside the first partial aggregate in them.
pub open spec fn united_among<P, S, X>(plans: Seq<PlanTree<P, S, X>>, input: X) -> Option<
    Seq<PlanTree<P, S, X>>,
>
    decreases plans,
{
    if plans.len() == 0 {
        None
    } else {
        match united_among(plans.drop_last(), input) {
            Some(earlier) => Some(earlier.push(plans.last())),
            None => match united(plans.last(), input) {
                Some(last) => Some(plans.drop_last().push(last)),
                None => None,
            },
        }
    }
}

/// The plan with `input` beside its first partial aggregate, or as it is if it has none.
pub open spec fn with_input<P, S, X>(plan: PlanTree<P, S, X>, input: X) -> PlanTree<P, S, X> {
    match united(plan, input) {
        Some(rewritten) => rewritten,
        None => plan,
    }
}

/// Whether a walk over a plan goes on.
#[derive(Clone, Copy, Debug, PartialEq, Eq, Structural)]
pub enum TreeNodeRecursion {
    Continue,
    Stop,
}

/// What a rewriter made of a plan.
pub struct Transformed<P, S, X> {
    pub data: Plan<P, S, X>,
    pub transformed: bool,
    pub tnr: TreeNodeRecursion,
}

/// Puts an extra input beside the first partial aggregate that it is shown, and stops there.
pub struct PartialAggregateUnionRewriter<X> {
    extra_input: Option<X>,
    rewritten: bool,
}

impl<X> PartialAggregateUnionRewriter<X> {
    /// The extra input, as long as it has not been placed.
    pub closed spec fn pending(self) -> Option<X> {
        if self.rewritten {
            None
        } else {
            self.extra_input
        }
    }

    /// The extra input is there until it is placed.
    pub closed spec fn wf(self) -> bool {
        !self.rewritten ==> self.extra_input is Some
    }

    /// A rewriter that has its extra input to place.
    pub fn new(extra_input: X) -> (r: PartialAggregateUnionRewriter<X>)
        ensures
            r.wf(),
            r.pending() == Some(extra_input),
    {
        PartialAggregateUnionRewriter { extra_input: Some(extra_input), rewritten: false }
    }

    /// Visit a node whose children have been visited. The first partial aggregate is put beside
    /// the extra input, and the walk stops; every other node stays as it is.
    pub fn f_up<P, S>(&mut self, node: Plan<P, S, X>) -> (r: Transformed<P, S, X>)
        requires
            old(self).wf(),
            old(self).pending() is Some ==> node.operator.wf(),
        ensures
            final(self).wf(),
            match old(self).pending() {
                Some(input) if node.operator.is_partial_aggregate() => {
                    &&& r.data.tree() == beside(node.tree(), input)
                    &&& r.transformed
                    &&& r.tnr == TreeNodeRecursion::Stop
                    &&& final(self).pending() is None
                },
                _ => {
                    &&& r.data == node
                    &&& !r.transformed
                    &&& r.tnr == TreeNodeRecursion::Continue
                    &&& *final(self) == *old(self)
                },
            },
    {
        if !self.rewritten {
            let schema = match (node.operator.aggregate_mode(), &node.operator) {
                (Some(Some(AggregateMode::Partial)), Operator::Planned { schema, .. }) => Some(
                    schema.clone(),
                ),
                _ => None,
            };
            match schema {
                Some(schema) => {
                    match self.extra_input.take() {
                        Some(input) => {
                            self.rewritten = true;
                            let ghost aggregate = node.tree();
                            let extra = Plan {
                                operator: Operator::Extra { input, schema },
                                children: Vec::new(),
                            };
                            let mut children: Vec<Plan<P, S, X>> = Vec::new();
                            children.push(node);
                            children.push(extra);
                            let data = Plan { operator: Operator::Union, children };
                            assert(extra.tree().children =~= Seq::empty());
                            assert(data.tree().children =~= beside(aggregate, input).children);
                            return Transformed {
                                data,
                                transformed: true,
                                tnr: TreeNodeRecursion::Stop,
                            };
                        },
                        None => {},
                    }
                },
                None => {},
            }
        }
        Transformed { data: node, transformed: false, tnr: TreeNodeRecursion::Continue }
    }
}

/// The tree of a plan is its operator over the trees of its children.
proof fn lemma_tree_of_parts<P, S, X>(plan: Plan<P, S, X>)
    ensures
        plan.tree() == (PlanTree { operator: plan.operator, children: trees(plan.children@) }),
{
    assert(plan.tree().children =~= trees(plan.children@));
}

/// Two lists of plans are walked one after the other.
proof fn lemma_post_order_append<P, S, X>(
    a: Seq<PlanTree<P, S, X>>,
    b: Seq<PlanTree<P, S, X>>,
)
    ensures
        post_order_all(a + b) == post_order_all(a) + post_order_all(b),
    decreases b.len(),
{
    if b.len() == 0 {
        assert(a + b =~= a);
        assert(post_order_all(a) + post_order_all(b) =~= post_order_all(a));
    } else {
        assert((a + b).drop_last() =~= a + b.drop_last());
        lemma_post_order_append(a, b.drop_last());
        assert(post_order_all(a + b) =~= post_order_all(a) + post_order_all(b));
    }
}

/// As long as the children before it have no partial aggregate, the walk over a child is sound
/// where the walk over the whole plan is.
proof fn lemma_child_walk_is_sound<P, S, X>(plan: PlanTree<P, S, X>, n: int, input: X)
    requires
        0 <= n < plan.children.len(),
        walk_is_sound(post_order(plan)),
        united_among(plan.children.take(n), input) is None,
    ensures
        walk_is_sound(post_order(plan.children[n])),
{
    let before = plan.children.take(n);
    let child = plan.children[n];
    let behind = plan.children.skip(n + 1);
    assert(plan.children =~= before.push(child) + behind);
    lemma_post_order_append(before.push(child), behind);
    assert(before.push(child).drop_last() =~= before);
    lemma_relisted_all(before, input);
    let a = post_order_all(before);
    let b = post_order(child);
    let whole = post_order(plan);
    assert forall|i: int| 0 <= i < b.len() && no_partial_before(b, i) implies (
    #[trigger] b[i]).wf() by {
        assert(whole[a.len() + i] == b[i]);
        assert forall|j: int| 0 <= j < a.len() + i implies !(
        #[trigger] whole[j]).is_partial_aggregate() by {
            if j < a.len() {
                assert(whole[j] == a[j]);
            } else {
                assert(whole[j] == b[j - a.len()]);
            }
        }
        assert(no_partial_before(whole, a.len() + i));
    }
}

/// Where no child has a partial aggregate, the walk comes to the top.
proof fn lemma_top_is_sound<P, S, X>(plan: PlanTree<P, S, X>, input: X)
    requires
        walk_is_sound(post_order(plan)),
        united_among(plan.children, input) is None,
    ensures
        plan.operator.wf(),
{
    lemma_relisted_all(plan.children, input);
    let below = post_order_all(plan.children);
    let whole = post_order(plan);
    assert forall|j: int| 0 <= j < below.len() implies !(
    #[trigger] whole[j]).is_partial_aggregate() by {
        assert(whole[j] == below[j]);
    }
    assert(no_partial_before(whole, below.len() as int));
    assert(whole[below.len() as int] == plan.operator);
}

/// A walk over two runs of operators looks at the second one only if the first one has no partial
/// aggregate.
proof fn lemma_sound_append<P, S, X>(a: Seq<Operator<P, S, X>>, b: Seq<Operator<P, S, X>>)
    ensures
        walk_is_sound(a + b) <==> walk_is_sound(a) && (no_partial_before(a, a.len() as int)
            ==> walk_is_sound(b)),
        no_partial_before(a + b, (a + b).len() as int) <==> no_partial_before(a, a.len() as int)
            && no_partial_before(b, b.len() as int),
{
    let n = a.len() as int;
    let whole = a + b;
    assert forall|i: int| 0 <= i <= n implies (#[trigger] no_partial_before(whole, i)
        <==> no_partial_before(a, i)) by {
        assert forall|j: int| 0 <= j < i implies whole[j] == a[j] by {}
        if no_partial_before(whole, i) {
            assert forall|j: int| 0 <= j < i implies !(#[trigger] a[j]).is_partial_aggregate() by {
                assert(!whole[j].is_partial_aggregate());
            }
        }
    }
    assert forall|i: int| 0 <= i <= b.len() implies (#[trigger] no_partial_before(b, i)
        && no_partial_before(a, n) <==> no_partial_before(whole, n + i)) by {
        if no_partial_before(whole, n + i) {
            assert forall|j: int| 0 <= j < i implies !(#[trigger] b[j]).is_partial_aggregate() by {
                assert(!whole[n + j].is_partial_aggregate());
            }
            assert forall|j: int| 0 <= j < n implies !(#[trigger] a[j]).is_partial_aggregate() by {
                assert(!whole[j].is_partial_aggregate());
            }
        }
        if no_partial_before(b, i) && no_partial_before(a, n) {
            assert forall|j: int| 0 <= j < n + i implies !(
            #[trigger] whole[j]).is_partial_aggregate() by {
                if j < n {
                    assert(whole[j] == a[j]);
                } else {
                    assert(whole[j] == b[j - n]);
                }
            }
        }
    }
    assert(no_partial_before(b, b.len() as int) && no_partial_before(a, n) <==> no_partial_before(
        whole,
        n + b.len(),
    ));
    if walk_is_sound(whole) {
        assert forall|i: int| 0 <= i < n && no_partial_before(a, i) implies (
        #[trigger] a[i]).wf() by {
            assert(no_partial_before(whole, i));
            assert(whole[i].wf());
        }
        if no_partial_before(a, n) {
            assert forall|i: int| 0 <= i < b.len() && no_partial_before(b, i) implies (
            #[trigger] b[i]).wf() by {
                assert(no_partial_before(whole, n + i));
                assert(whole[n + i].wf());
            }
        }
    }
    if walk_is_sound(a) && (no_partial_before(a, n) ==> walk_is_sound(b)) {
        assert forall|i: int| 0 <= i < whole.len() && no_partial_before(whole, i) implies (
        #[trigger] whole[i]).wf() by {
            if i < n {
                assert(no_partial_before(a, i));
                assert(a[i].wf());
            } else {
                assert(no_partial_before(whole, n + (i - n)));
                assert(no_partial_before(b, i - n));
                assert(b[i - n].wf());
            }
        }
    }
}

/// The walk over a list of plans, seen from the plan at position `n`.
proof fn lemma_walk_at<P, S, X>(plans: Seq<PlanTree<P, S, X>>, n: int)
    requires
        0 <= n < plans.len(),
    ensures
        post_order_all(plans.take(n + 1)) == post_order_all(plans.take(n)) + post_order(plans[n]),
        post_order_all(plans) == post_order_all(plans.take(n)) + post_order_all(plans.skip(n)),
{
    assert(plans.take(n + 1).drop_last() =~= plans.take(n));
    assert(plans =~= plans.take(n) + plans.skip(n));
    lemma_post_order_append(plans.take(n), plans.skip(n));
}

impl<P, S, X> Operator<P, S, X> {
    /// Whether the operator has the name of an aggregate, and the mode that it then has.
    fn aggregate_mode(&self) -> (r: Option<Option<AggregateMode>>)
        ensures
            self.wf() <==> r != Some(None::<AggregateMode>),
            self.is_partial_aggregate() <==> r == Some(Some(AggregateMode::Partial)),
    {
        match self {
            Operator::Planned { name, mode, .. } => {
                let aggregate = "AggregateExec".to_owned();
                if *name == aggregate {
                    Some(*mode)
                } else {
                    None
                }
            },
            _ => None,
        }
    }
}

impl<P, S, X> Plan<P, S, X> {
    /// Walk the plan up to its first partial aggregate. The first part of the result says whether
    /// every operator on the way is as it should be, the second whether there is a partial
    /// aggregate at the end of the way.
    fn walk(&self) -> (r: (bool, bool))
        ensures
            r.0 == walk_is_sound(post_order(self.tree())),
            r.0 ==> r.1 == !no_partial_before(
                post_order(self.tree()),
                post_order(self.tree()).len() as int,
            ),
        decreases self,
    {
        let ghost below = trees(self.children@);
        let ghost top = seq![self.operator];
        proof {
            lemma_tree_of_parts(*self);
            assert(post_order(self.tree()) =~= post_order_all(below) + top);
            lemma_sound_append(post_order_all(below), top);
            assert(below.take(0) =~= Seq::empty());
        }
        let mut i: usize = 0;
        while i < self.children.len()
            invariant
                i <= self.children@.len(),
                below == trees(self.children@),
                top == seq![self.operator],
                post_order(self.tree()) == post_order_all(below) + top,
                walk_is_sound(post_order(self.tree())) ==> walk_is_sound(post_order_all(below)),
                walk_is_sound(post_order_all(below)) && !no_partial_before(
                    post_order_all(below),
                    post_order_all(below).len() as int,
                ) ==> walk_is_sound(post_order(self.tree())) && !no_partial_before(
                    post_order(self.tree()),
                    post_order(self.tree()).len() as int,
                ),
                walk_is_sound(post_order_all(below.take(i as int))),
                no_partial_before(
                    post_order_all(below.take(i as int)),
                    post_order_all(below.take(i as int)).len() as int,
                ),
            decreases self.children@.len() - i,
        {
            let (sound, partial) = self.children[i].walk();
            proof {
                let n = i as int;
                lemma_walk_at(below, n);
                lemma_sound_append(post_order_all(below.take(n)), post_order(below[n]));
                if n + 1 < below.len() {
                    lemma_walk_at(below, n + 1);
                    lemma_sound_append(
                        post_order_all(below.take(n + 1)),
                        post_order_all(below.skip(n + 1)),
                    );
                } else {
                    assert(below.take(n + 1) =~= below);
                }
            }
            if !sound {
                return (false, false);
            }
            if partial {
                return (true, true);
            }
            i += 1;
        }
        proof {
            assert(below.take(i as int) =~= below);
            assert(top[0] == self.operator);
            assert(walk_is_sound(top) <==> self.operator.wf()) by {
                assert(no_partial_before(top, 0));
            }
            assert(no_partial_before(top, 1) <==> !self.operator.is_partial_aggregate());
        }
        match self.operator.aggregate_mode() {
            Some(None) => (false, false),
            Some(Some(AggregateMode::Partial)) => (true, true),
            _ => (true, false),
        }
    }

    /// Whether the plan can be rewritten: every operator that a walk comes to, up to the first
    /// partial aggregate, has a mode if it has the name of an aggregate.
    pub fn can_be_rewritten(&self) -> (r: bool)
        ensures
            r == walk_is_sound(post_order(self.tree())),
    {
        self.walk().0
    }

    /// Walk the plan from the leaves up, left to right, and show each node to the rewriter until
    /// it stops the walk.
    pub fn rewrite(self, rewriter: &mut PartialAggregateUnionRewriter<X>) -> (r: Transformed<
        P,
        S,
        X,
    >)
        requires
            old(rewriter).wf(),
            old(rewriter).pending() is Some,
            walk_is_sound(post_order(self.tree())),
        ensures
            final(rewriter).wf(),
            r.data.tree() == with_input(self.tree(), old(rewriter).pending()->0),
            match united(self.tree(), old(rewriter).pending()->0) {
                Some(_) => {
                    &&& r.transformed
                    &&& r.tnr == TreeNodeRecursion::Stop
                    &&& final(rewriter).pending() is None
                },
                None => {
                    &&& !r.transformed
                    &&& r.tnr == TreeNodeRecursion::Continue
                    &&& *final(rewriter) == *old(rewriter)
                },
            },
        decreases self,
    {
        let ghost input = rewriter.pending()->0;
        let ghost whole = self.tree();
        proof {
            lemma_tree_of_parts(self);
        }
        let Plan { operator, children } = self;
        let ghost all = children@;
        let mut done: Vec<Plan<P, S, X>> = Vec::new();
        let mut stopped: bool = false;
        assert(trees(all).take(0) =~= Seq::empty());
        for child in it: children
            invariant
                it.seq() == all,
                whole == (PlanTree { operator, children: trees(all) }),
                walk_is_sound(post_order(whole)),
                all == self.children@,
                done@.len() == it.index(),
                rewriter.wf(),
                match united_among(trees(all).take(it.index() as int), input) {
                    Some(prefix) => {
                        &&& stopped
                        &&& trees(done@) == prefix
                        &&& rewriter.pending() is None
                    },
                    None => {
                        &&& !stopped
                        &&& trees(done@) == trees(all).take(it.index() as int)
                        &&& *rewriter == *old(rewriter)
                        &&& rewriter.pending() == Some(input)
                    },
                },
        {
            let ghost n = it.index() as int;
            proof {
                assert(trees(all).take(n + 1).drop_last() =~= trees(all).take(n));
                assert(trees(all).take(n + 1).last() == all[n].tree());
                if !stopped {
                    lemma_child_walk_is_sound(whole, n, input);
                }
            }
            let ghost before = done@;
            if stopped {
                done.push(child);
            } else {
                let t = child.rewrite(rewriter);
                if t.tnr == TreeNodeRecursion::Stop {
                    stopped = true;
                }
                done.push(t.data);
            }
            assert(trees(done@) =~= trees(before).push(done@.last().tree()));
        }
        proof {
            assert(trees(all).take(all.len() as int) =~= trees(all));
        }
        let node = Plan { operator, children: done };
        proof {
            lemma_tree_of_parts(node);
        }
        if stopped {
            Transformed { data: node, transformed: true, tnr: TreeNodeRecursion::Stop }
        } else {
            proof {
                lemma_top_is_sound(whole, input);
            }
            rewriter.f_up(node)
        }
    }
}

/// What the follower knows of a data file without opening it.
#[derive(Clone, Copy, Debug, PartialEq, Eq, Structural)]
pub struct FileMeta {
    /// The number of records; a negative number counts as none.
    pub records: i64,
}

/// A data file of a search.
#[derive(Clone, Copy, Debug, PartialEq, Eq, Structural)]
pub struct FileKey {
    pub meta: FileMeta,
}

/// An input that puts a known number of records out, without a scan.
#[derive(Clone, Copy, Debug, PartialEq, Eq, Structural)]
pub struct MetadataCount {
    pub records: i64,
}

/// An input that answers its part of the search from an index.
pub struct TantivyOptimize<Q, F, I, O> {
    pub query: Arc<Q>,
    pub file_list: Vec<F>,
    pub index_condition: Option<I>,
    pub index_optimize_mode: O,
}

/// The records that a file is counted with.
pub open spec fn counted(file: FileKey) -> nat {
    if file.meta.records < 0 {
        0
    } else {
        file.meta.records as nat
    }
}

/// The records of all files together.
pub open spec fn record_total(files: Seq<FileKey>) -> nat
    decreases files.len(),
{
    if files.len() == 0 {
        0
    } else {
        record_total(files.drop_last()) + counted(files.last())
    }
}

/// The records of all files together, as far as they can be written down.
pub open spec fn metadata_total(files: Seq<FileKey>) -> int {
    if record_total(files) > i64::MAX {
        i64::MAX as int
    } else {
        record_total(files) as int
    }
}

/// The number of records that the metadata of the files adds up to, at most `i64::MAX`. A negative
/// number counts as none.
pub fn metadata_records(file_list: &[FileKey]) -> (r: i64)
    ensures
        r == metadata_total(file_list@),
{
    let mut total: i64 = 0;
    let mut i: usize = 0;
    assert(file_list@.take(0) =~= Seq::empty());
    while i < file_list.len()
        invariant
            i <= file_list@.len(),
            total == metadata_total(file_list@.take(i as int)),
        decreases file_list@.len() - i,
    {
        let records: i64 = file_list[i].meta.records;
        let counted: i64 = if records > 0 { records } else { 0 };
        proof {
            assert(file_list@.take(i + 1).drop_last() =~= file_list@.take(i as int));
        }
        total = match total.checked_add(counted) {
            Some(sum) => sum,
            None => i64::MAX,
        };
        i += 1;
    }
    assert(file_list@.take(file_list@.len() as int) =~= file_list@);
    total
}

/// Count the records of `file_list` from their metadata: the first partial aggregate of the plan
/// gets an input that stands for them. Without any records the plan stays as it is.
pub fn metadata_count_rewrite<P, S>(
    file_list: Vec<FileKey>,
    physical_plan: Plan<P, S, MetadataCount>,
) -> (r: Plan<P, S, MetadataCount>)
    requires
        metadata_total(file_list@) != 0 ==> walk_is_sound(post_order(physical_plan.tree())),
    ensures
        metadata_total(file_list@) == 0 ==> r == physical_plan,
        metadata_total(file_list@) != 0 ==> r.tree() == with_input(
            physical_plan.tree(),
            (MetadataCount { records: metadata_total(file_list@) as i64 }),
        ),
{
    let records: i64 = metadata_records(file_list.as_slice());
    if records == 0 {
        return physical_plan;
    }
    let mut rewriter = PartialAggregateUnionRewriter::new(MetadataCount { records });
    physical_plan.rewrite(&mut rewriter).data
}

/// Answer the search on `file_list` from an index: the first partial aggregate of the plan gets an
/// input that looks the files up.
pub fn tantivy_optimize_rewrite<P, S, Q, F, I, O>(
    query: Arc<Q>,
    file_list: Vec<F>,
    index_condition: Option<I>,
    index_optimize_mode: O,
    physical_plan: Plan<P, S, TantivyOptimize<Q, F, I, O>>,
) -> (r: Plan<P, S, TantivyOptimize<Q, F, I, O>>)
    requires
        walk_is_sound(post_order(physical_plan.tree())),
    ensures
        r.tree() == with_input(
            physical_plan.tree(),
            (TantivyOptimize { query, file_list, index_condition, index_optimize_mode }),
        ),
{
    let mut rewriter = PartialAggregateUnionRewriter::new(
        TantivyOptimize { query, file_list, index_condition, index_optimize_mode },
    );
    physical_plan.rewrite(&mut rewriter).data
}

/// `i` is the position of the first partial aggregate in `operators`.
pub open spec fn first_partial<P, S, X>(operators: Seq<Operator<P, S, X>>, i: int) -> bool {
    &&& 0 <= i < operators.len()
    &&& operators[i].is_partial_aggregate()
    &&& no_partial_before(operators, i)
}

/// `operators` with the extra input, and the union of the two, right behind position `i`.
pub open spec fn spliced<P, S, X>(
    operators: Seq<Operator<P, S, X>>,
    i: int,
    input: X,
) -> Seq<Operator<P, S, X>> {
    operators.subrange(0, i + 1) + seq![
        Operator::Extra { input, schema: operators[i]->Planned_schema },
        Operator::Union,
    ] + operators.subrange(i + 1, operators.len() as int)
}

/// What the rewrite makes of a listing of operators.
spec fn relisted<P, S, X>(
    before: Seq<Operator<P, S, X>>,
    after: Option<Seq<Operator<P, S, X>>>,
    input: X,
) -> bool {
    match after {
        Some(after) => exists|i: int|
            #[trigger] first_partial(before, i) && after == spliced(before, i, input),
        None => forall|i: int|
            0 <= i < before.len() ==> !(#[trigger] before[i]).is_partial_aggregate(),
    }
}

/// A rewrite in the first part of a walk leaves the second part alone.
proof fn lemma_relisted_then<P, S, X>(
    a: Seq<Operator<P, S, X>>,
    a2: Seq<Operator<P, S, X>>,
    b: Seq<Operator<P, S, X>>,
    input: X,
)
    requires
        relisted(a, Some(a2), input),
    ensures
        relisted(a + b, Some(a2 + b), input),
{
    let i = choose|i: int| #[trigger] first_partial(a, i) && a2 == spliced(a, i, input);
    assert((a + b)[i] == a[i]);
    assert forall|j: int| 0 <= j < i implies !(#[trigger] (a + b)[j]).is_partial_aggregate() by {
        assert((a + b)[j] == a[j]);
    }
    assert(first_partial(a + b, i));
    assert(a2 + b =~= spliced(a + b, i, input));
}

/// A rewrite in the second part of a walk finds nothing to do in the first part.
proof fn lemma_then_relisted<P, S, X>(
    a: Seq<Operator<P, S, X>>,
    b: Seq<Operator<P, S, X>>,
    b2: Seq<Operator<P, S, X>>,
    input: X,
)
    requires
        relisted(a, None, input),
        relisted(b, Some(b2), input),
    ensures
        relisted(a + b, Some(a + b2), input),
{
    let i = choose|i: int| #[trigger] first_partial(b, i) && b2 == spliced(b, i, input);
    let k = a.len() + i;
    assert((a + b)[k] == b[i]);
    assert forall|j: int| 0 <= j < k implies !(#[trigger] (a + b)[j]).is_partial_aggregate() by {
        if j < a.len() {
            assert((a + b)[j] == a[j]);
        } else {
            assert((a + b)[j] == b[j - a.len()]);
        }
    }
    assert(first_partial(a + b, k));
    assert(a + b2 =~= spliced(a + b, k, input));
}

/// What the rewrite of a plan makes of its walk.
proof fn lemma_relisted<P, S, X>(plan: PlanTree<P, S, X>, input: X)
    ensures
        relisted(
            post_order(plan),
            match united(plan, input) {
                Some(rewritten) => Some(post_order(rewritten)),
                None => None,
            },
            input,
        ),
    decreases plan,
{
    let below = post_order_all(plan.children);
    let top = seq![plan.operator];
    lemma_relisted_all(plan.children, input);
    assert(post_order(plan) =~= below + top);
    match united_among(plan.children, input) {
        Some(children) => {
            lemma_relisted_then(below, post_order_all(children), top, input);
            let rewritten = PlanTree { operator: plan.operator, children };
            assert(post_order(rewritten) =~= post_order_all(children) + top);
        },
        None => {
            if plan.operator.is_partial_aggregate() {
                let operators = post_order(plan);
                let i = below.len() as int;
                assert forall|j: int| 0 <= j < i implies !(
                #[trigger] operators[j]).is_partial_aggregate() by {
                    assert(operators[j] == below[j]);
                }
                assert(first_partial(operators, i));
                lemma_beside(plan, input);
                assert(post_order(beside(plan, input)) =~= spliced(operators, i, input));
            } else {
                let operators = post_order(plan);
                assert forall|j: int| 0 <= j < operators.len() implies !(
                #[trigger] operators[j]).is_partial_aggregate() by {
                    if j < below.len() {
                        assert(operators[j] == below[j]);
                    }
                }
            }
        },
    }
}

/// The walk over a union ends with the extra input and the union itself.
proof fn lemma_beside<P, S, X>(plan: PlanTree<P, S, X>, input: X)
    ensures
        post_order(beside(plan, input)) == post_order(plan) + seq![
            Operator::Extra { input, schema: plan.operator->Planned_schema },
            Operator::Union,
        ],
{
    let whole = beside(plan, input);
    let extra = whole.children[1];
    assert(whole.children.drop_last() =~= seq![plan]);
    assert(seq![plan].drop_last() =~= Seq::empty());
    assert(post_order_all(Seq::<PlanTree<P, S, X>>::empty()) =~= Seq::empty());
    assert(post_order_all(seq![plan]) =~= post_order(plan)) by {
        assert(seq![plan].last() == plan);
    }
    assert(post_order(extra) =~= seq![extra.operator]);
    assert(post_order_all(whole.children) =~= post_order(plan).push(extra.operator));
    assert(post_order(whole) =~= post_order(plan) + seq![extra.operator, Operator::Union]);
}

/// What the rewrite of a list of plans makes of their walk.
proof fn lemma_relisted_all<P, S, X>(plans: Seq<PlanTree<P, S, X>>, input: X)
    ensures
        relisted(
            post_order_all(plans),
            match united_among(plans, input) {
                Some(rewritten) => Some(post_order_all(rewritten)),
                None => None,
            },
            input,
        ),
    decreases plans,
{
    if plans.len() > 0 {
        let earlier = plans.drop_last();
        let last = plans.last();
        let a = post_order_all(earlier);
        let b = post_order(last);
        lemma_relisted_all(earlier, input);
        lemma_relisted(last, input);
        match united_among(earlier, input) {
            Some(rewritten) => {
                lemma_relisted_then(a, post_order_all(rewritten), b, input);
                assert(rewritten.push(last).drop_last() =~= rewritten);
            },
            None => match united(last, input) {
                Some(rewritten) => {
                    lemma_then_relisted(a, b, post_order(rewritten), input);
                    assert(earlier.push(rewritten).drop_last() =~= earlier);
                },
                None => {
                    assert forall|j: int| 0 <= j < (a + b).len() implies !(
                    #[trigger] (a + b)[j]).is_partial_aggregate() by {
                        if j < a.len() {
                            assert((a + b)[j] == a[j]);
                        } else {
                            assert((a + b)[j] == b[j - a.len()]);
                        }
                    }
                },
            },
        }
    }
}

/// Law: the rewrite touches one place. Of all operators in the order of the walk, the first partial
/// aggregate gets the extra input, with that aggregate's schema, and the union of the two behind
/// it; every other operator stays in its place.
pub proof fn law_first_partial_aggregate_gets_the_input<P, S, X>(
    plan: PlanTree<P, S, X>,
    input: X,
    i: int,
)
    requires
        first_partial(post_order(plan), i),
    ensures
        post_order(with_input(plan, input)) == spliced(post_order(plan), i, input),
{
    lemma_relisted(plan, input);
    let operators = post_order(plan);
    match united(plan, input) {
        Some(rewritten) => {
            let k = choose|k: int|
                #[trigger] first_partial(operators, k) && post_order(rewritten) == spliced(
                    operators,
                    k,
                    input,
                );
            assert(first_partial(operators, k));
            assert(i == k);
        },
        None => {
            assert(!operators[i].is_partial_aggregate());
        },
    }
}

/// Law: a plan without a partial aggregate is left as it is.
pub proof fn law_plan_without_partial_aggregate_is_kept<P, S, X>(
    plan: PlanTree<P, S, X>,
    input: X,
)
    requires
        forall|i: int|
            0 <= i < post_order(plan).len() ==> !(
            #[trigger] post_order(plan)[i]).is_partial_aggregate(),
    ensures
        with_input(plan, input) == plan,
{
    lemma_relisted(plan, input);
    match united(plan, input) {
        Some(rewritten) => {
            let k = choose|k: int|
                #[trigger] first_partial(post_order(plan), k) && post_order(rewritten) == spliced(
                    post_order(plan),
                    k,
                    input,
                );
            assert(first_partial(post_order(plan), k));
            assert(false);
        },
        None => {},
    }
}

/// Law: the metadata counts nothing exactly where no file knows of a record.
pub proof fn law_nothing_counted_without_records(files: Seq<FileKey>)
    ensures
        metadata_total(files) == 0 <==> forall|i: int|
            0 <= i < files.len() ==> (#[trigger] files[i]).meta.records <= 0,
    decreases files.len(),
{
    if files.len() > 0 {
        let earlier = files.drop_last();
        law_nothing_counted_without_records(earlier);
        assert forall|i: int| 0 <= i < earlier.len() implies #[trigger] files[i] == earlier[i] by {}
        if metadata_total(files) == 0 {
            assert forall|i: int| 0 <= i < files.len() implies (
            #[trigger] files[i]).meta.records <= 0 by {
                if i < earlier.len() {
                    assert(earlier[i].meta.records <= 0);
                }
            }
        } else if forall|i: int|
            0 <= i < files.len() ==> (#[trigger] files[i]).meta.records <= 0 {
            assert forall|i: int| 0 <= i < earlier.len() implies (
            #[trigger] earlier[i]).meta.records <= 0 by {
                assert(files[i].meta.records <= 0);
            }
            assert(files[files.len() - 1].meta.records <= 0);
        }
    }
}

/// The records of two lists of files add up.
proof fn lemma_totals_add_up(a: Seq<FileKey>, b: Seq<FileKey>)
    ensures
        record_total(a + b) == record_total(a) + record_total(b),
    decreases b.len(),
{
    if b.len() == 0 {
        assert(a + b =~= a);
    } else {
        assert((a + b).drop_last() =~= a + b.drop_last());
        lemma_totals_add_up(a, b.drop_last());
    }
}

/// Law: records add up file by file. The records of two lists of files together are those of the one
/// and those of the other, as far as they can be written down; neither repetitions nor the order of
/// the files play a part.
pub proof fn law_records_add_up(
    a: &[FileKey],
    b: &[FileKey],
    both: &[FileKey],
    in_a: i64,
    in_b: i64,
    in_both: i64,
)
    requires
        both@ == a@ + b@,
        call_ensures(metadata_records, (a,), in_a),
        call_ensures(metadata_records, (b,), in_b),
        call_ensures(metadata_records, (both,), in_both),
    ensures
        in_both == (if in_a + in_b > i64::MAX { i64::MAX as int } else { in_a + in_b }),
        in_both >= in_a && in_both >= in_b,
{
    lemma_totals_add_up(a@, b@);
}

/// Law: a file alone counts the records that its metadata knows of, and none if that number is
/// negative; no file counts none.
pub proof fn law_one_file_counts_its_records(files: &[FileKey], records: i64)
    requires
        call_ensures(metadata_records, (files,), records),
    ensures
        files@.len() == 0 ==> records == 0,
        files@.len() == 1 && files@[0].meta.records >= 0 ==> records == files@[0].meta.records,
        files@.len() == 1 && files@[0].meta.records < 0 ==> records == 0,
{
    if files@.len() == 1 {
        assert(files@.drop_last() =~= Seq::empty());
        assert(record_total(files@.drop_last()) == 0);
    }
}

/// Law: the tree of a plan is the plan. It has the operator of the plan on top, and below it the
/// trees of all children, in order.
pub proof fn law_tree_is_the_plan<P, S, X>(plan: Plan<P, S, X>, i: int)
    ensures
        plan.tree().operator == plan.operator,
        plan.tree().children.len() == plan.children@.len(),
        0 <= i < plan.children@.len() ==> plan.tree().children[i] == plan.children@[i].tree(),
{
}

/// Law: a walk comes to every operator once, to the children of an operator before the operator
/// itself, and to the children from left to right.
pub proof fn law_walk_comes_to_every_operator<P, S, X>(
    plan: PlanTree<P, S, X>,
    a: Seq<PlanTree<P, S, X>>,
    b: Seq<PlanTree<P, S, X>>,
)
    ensures
        post_order(plan) == post_order_all(plan.children).push(plan.operator),
        post_order_all(a + b) == post_order_all(a) + post_order_all(b),
        post_order_all(seq![plan]) == post_order(plan),
        post_order_all(Seq::<PlanTree<P, S, X>>::empty()).len() == 0,
{
    lemma_post_order_append(a, b);
    assert(seq![plan].drop_last() =~= Seq::empty());
    assert(post_order_all(seq![plan].drop_last()) =~= Seq::empty());
    assert(post_order_all(seq![plan]) =~= post_order(plan));
}

/// Law: a partial aggregate is an operator of the planner that is named as an aggregate and is in
/// partial mode. An operator that is named so and has no mode cannot be told apart.
pub proof fn law_partial_aggregates_are_told_by_name_and_mode<P, S, X>(operator: Operator<P, S, X>)
    ensures
        operator.is_partial_aggregate() <==> operator is Planned && operator->name@
            == "AggregateExec"@ && operator->mode == Some(AggregateMode::Partial),
        operator.wf() <==> !(operator is Planned && operator->name@ == "AggregateExec"@
            && operator->mode is None),
{
}

/// Law: a plan can be rewritten unless a walk comes to an aggregate without a mode before it has come
/// to a partial aggregate.
pub proof fn law_rewritable_plans<P, S, X>(plan: Plan<P, S, X>, r: bool)
    requires
        call_ensures(Plan::<P, S, X>::can_be_rewritten, (&plan,), r),
    ensures
        ({
            let operators = post_order(plan.tree());
            r <==> forall|i: int|
                0 <= i < operators.len() && (#[trigger] operators[i]) is Planned
                    && operators[i]->name@ == "AggregateExec"@ && operators[i]->mode is None
                    ==> exists|j: int|
                    0 <= j < i && (#[trigger] operators[j]).is_partial_aggregate()
        }),
{
    let operators = post_order(plan.tree());
    if r {
        assert forall|i: int|
            0 <= i < operators.len() && (#[trigger] operators[i]) is Planned && operators[i]->name@
                == "AggregateExec"@ && operators[i]->mode is None implies exists|j: int|
            0 <= j < i && (#[trigger] operators[j]).is_partial_aggregate() by {
            assert(!operators[i].wf());
            assert(!no_partial_before(operators, i));
        }
    } else {
        let i = choose|i: int|
            0 <= i < operators.len() && no_partial_before(operators, i) && !(
            #[trigger] operators[i]).wf();
        assert(operators[i] is Planned);
    }
}

/// The first plan of a list that can take the input does.
proof fn lemma_first_of_list_takes_the_input<P, S, X>(
    plans: Seq<PlanTree<P, S, X>>,
    input: X,
    c: int,
)
    requires
        0 <= c < plans.len(),
        united(plans[c], input) is Some,
        forall|i: int| 0 <= i < c ==> united(#[trigger] plans[i], input) is None,
    ensures
        united_among(plans, input) == Some(plans.update(c, united(plans[c], input)->0)),
    decreases plans.len(),
{
    let earlier = plans.drop_last();
    if c < earlier.len() {
        assert forall|i: int| 0 <= i < c implies united(#[trigger] earlier[i], input) is None by {
            assert(earlier[i] == plans[i]);
        }
        lemma_first_of_list_takes_the_input(earlier, input, c);
        assert(earlier.update(c, united(plans[c], input)->0).push(plans.last()) =~= plans.update(
            c,
            united(plans[c], input)->0,
        ));
    } else {
        assert forall|i: int| 0 <= i < earlier.len() implies united(
            #[trigger] earlier[i],
            input,
        ) is None by {
            assert(earlier[i] == plans[i]);
        }
        lemma_none_of_list_takes_the_input(earlier, input);
        assert(earlier.push(united(plans[c], input)->0) =~= plans.update(
            c,
            united(plans[c], input)->0,
        ));
    }
}

/// Where no plan of a list can take the input, the list cannot.
proof fn lemma_none_of_list_takes_the_input<P, S, X>(plans: Seq<PlanTree<P, S, X>>, input: X)
    requires
        forall|i: int| 0 <= i < plans.len() ==> united(#[trigger] plans[i], input) is None,
    ensures
        united_among(plans, input) is None,
    decreases plans.len(),
{
    if plans.len() > 0 {
        let earlier = plans.drop_last();
        assert forall|i: int| 0 <= i < earlier.len() implies united(
            #[trigger] earlier[i],
            input,
        ) is None by {
            assert(earlier[i] == plans[i]);
        }
        lemma_none_of_list_takes_the_input(earlier, input);
        assert(plans.last() == plans[plans.len() - 1]);
    }
}

/// A plan takes the input exactly where its walk comes to a partial aggregate.
proof fn lemma_takes_the_input<P, S, X>(plan: PlanTree<P, S, X>, input: X)
    ensures
        united(plan, input) is Some <==> exists|j: int|
            0 <= j < post_order(plan).len() && (
            #[trigger] post_order(plan)[j]).is_partial_aggregate(),
{
    lemma_relisted(plan, input);
    match united(plan, input) {
        Some(rewritten) => {
            let k = choose|k: int|
                #[trigger] first_partial(post_order(plan), k) && post_order(rewritten) == spliced(
                    post_order(plan),
                    k,
                    input,
                );
            assert(post_order(plan)[k].is_partial_aggregate());
        },
        None => {},
    }
}

/// Law: where the first partial aggregate stands below an operator, the rewrite goes on in the child
/// that has it. The operator, and its other children, stay as they are.
pub proof fn law_rewrite_goes_into_one_child<P, S, X>(plan: PlanTree<P, S, X>, input: X, c: int)
    requires
        0 <= c < plan.children.len(),
        exists|j: int|
            0 <= j < post_order(plan.children[c]).len() && (
            #[trigger] post_order(plan.children[c])[j]).is_partial_aggregate(),
        forall|i: int, j: int|
            0 <= i < c && 0 <= j < post_order(plan.children[i]).len() ==> !(
            #[trigger] post_order(plan.children[i])[j]).is_partial_aggregate(),
    ensures
        with_input(plan, input).operator == plan.operator,
        with_input(plan, input).children == plan.children.update(
            c,
            with_input(plan.children[c], input),
        ),
{
    lemma_takes_the_input(plan.children[c], input);
    assert forall|i: int| 0 <= i < c implies united(#[trigger] plan.children[i], input) is None by {
        lemma_takes_the_input(plan.children[i], input);
    }
    lemma_first_of_list_takes_the_input(plan.children, input, c);
}

/// Law: where a partial aggregate has no other below it, a union takes its place. The union has two
/// children: the aggregate as it was, with all that is below it, and behind it the extra input, with
/// the schema of the aggregate and with nothing below.
pub proof fn law_union_takes_the_place_of_the_aggregate<P, S, X>(
    plan: PlanTree<P, S, X>,
    input: X,
)
    requires
        plan.operator.is_partial_aggregate(),
        forall|i: int, j: int|
            0 <= i < plan.children.len() && 0 <= j < post_order(plan.children[i]).len() ==> !(
            #[trigger] post_order(plan.children[i])[j]).is_partial_aggregate(),
    ensures
        with_input(plan, input).operator is Union,
        with_input(plan, input).children.len() == 2,
        with_input(plan, input).children[0] == plan,
        with_input(plan, input).children[1].operator == (Operator::<P, S, X>::Extra {
            input,
            schema: plan.operator->Planned_schema,
        }),
        with_input(plan, input).children[1].children.len() == 0,
{
    assert forall|i: int| 0 <= i < plan.children.len() implies united(
        #[trigger] plan.children[i],
        input,
    ) is None by {
        lemma_takes_the_input(plan.children[i], input);
    }
    lemma_none_of_list_takes_the_input(plan.children, input);
}

/// Law: the metadata rewrite puts an input for all records beside the partial aggregate, and leaves
/// a plan alone where there are no records.
pub proof fn law_metadata_input_stands_for_all_records<P, S>(
    files: Vec<FileKey>,
    listed: &[FileKey],
    records: i64,
    plan: Plan<P, S, MetadataCount>,
    r: Plan<P, S, MetadataCount>,
)
    requires
        listed@ == files@,
        call_ensures(metadata_records, (listed,), records),
        call_ensures(metadata_count_rewrite::<P, S>, (files, plan), r),
    ensures
        records == 0 ==> r == plan,
        records != 0 ==> r.tree() == with_input(plan.tree(), (MetadataCount { records })),
{
}

/// Law: the index rewrite hands its query, its files, its condition and its mode to the input as
/// they are.
pub proof fn law_index_input_has_what_it_was_given<P, S, Q, F, I, O>(
    query: Arc<Q>,
    file_list: Vec<F>,
    index_condition: Option<I>,
    index_optimize_mode: O,
    plan: Plan<P, S, TantivyOptimize<Q, F, I, O>>,
    r: Plan<P, S, TantivyOptimize<Q, F, I, O>>,
)
    requires
        call_ensures(
            tantivy_optimize_rewrite::<P, S, Q, F, I, O>,
            (query, file_list, index_condition, index_optimize_mode, plan),
            r,
        ),
    ensures
        exists|input: TantivyOptimize<Q, F, I, O>| #[trigger]
            with_input(plan.tree(), input) == r.tree() && input.query == query && input.file_list@
                == file_list@ && input.index_condition == index_condition
                && input.index_optimize_mode == index_optimize_mode,
{
    let input = TantivyOptimize { query, file_list, index_condition, index_optimize_mode };
    assert(with_input(plan.tree(), input) == r.tree());
}

/// Law: putting the input in adds two operators to the walk, the input and the union behind the
/// aggregate, and shifts those behind by two.
pub proof fn law_splice_adds_input_and_union<P, S, X>(
    operators: Seq<Operator<P, S, X>>,
    i: int,
    input: X,
    k: int,
)
    requires
        0 <= i < operators.len(),
    ensures
        spliced(operators, i, input).len() == operators.len() + 2,
        0 <= k <= i ==> spliced(operators, i, input)[k] == operators[k],
        spliced(operators, i, input)[i + 1] == (Operator::<P, S, X>::Extra {
            input,
            schema: operators[i]->Planned_schema,
        }),
        spliced(operators, i, input)[i + 2] is Union,
        i < k < operators.len() ==> spliced(operators, i, input)[k + 2] == operators[k],
{
}

} // verus!
