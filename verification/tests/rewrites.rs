use flight_follower::rewrite::{
    metadata_count_rewrite, metadata_records, tantivy_optimize_rewrite, AggregateMode, FileKey,
    FileMeta, MetadataCount, Operator, PartialAggregateUnionRewriter, Plan, TantivyOptimize,
    TreeNodeRecursion,
};
use std::sync::Arc;

fn file(records: i64) -> FileKey {
    FileKey {
        meta: FileMeta { records },
    }
}

fn node<X>(
    handle: u32,
    name: &str,
    mode: Option<AggregateMode>,
    children: Vec<Plan<u32, String, X>>,
) -> Plan<u32, String, X> {
    Plan {
        operator: Operator::Planned {
            handle,
            name: name.to_string(),
            mode,
            schema: Arc::new(format!("schema {handle}")),
        },
        children,
    }
}

fn aggregate<X>(
    handle: u32,
    mode: AggregateMode,
    children: Vec<Plan<u32, String, X>>,
) -> Plan<u32, String, X> {
    node(handle, "AggregateExec", Some(mode), children)
}

fn other<X>(handle: u32, children: Vec<Plan<u32, String, X>>) -> Plan<u32, String, X> {
    node(handle, "ProjectionExec", None, children)
}

/// The plan as text: handles, `U` for a union, and the extra input in angle brackets.
fn show<X>(plan: &Plan<u32, String, X>, extra: &dyn Fn(&X) -> String) -> String {
    let head = match &plan.operator {
        Operator::Planned { handle, .. } => format!("{handle}"),
        Operator::Union => "U".to_string(),
        Operator::Extra { input, schema } => format!("<{} as {}>", extra(input), schema),
    };
    if plan.children.is_empty() {
        return head;
    }
    let children: Vec<String> = plan.children.iter().map(|c| show(c, extra)).collect();
    format!("{head}({})", children.join(" "))
}

fn count(input: &MetadataCount) -> String {
    format!("records: {}", input.records)
}

#[test]
fn test_metadata_count_rewrite_adds_partial_count_input() {
    let files = vec![file(11), file(31)];
    let physical_plan = aggregate(
        1,
        AggregateMode::Final,
        vec![aggregate(2, AggregateMode::Partial, vec![other(3, vec![])])],
    );
    let rewritten = metadata_count_rewrite(files, physical_plan);
    let plan = show(&rewritten, &count);
    assert!(plan.contains("records: 42"));
    assert_eq!(plan, "1(U(2(3) <records: 42 as schema 2>))");
    match &rewritten.children[0].children[1].operator {
        Operator::Extra { input, .. } => assert_eq!(input.records, 42),
        _ => panic!("no extra input"),
    }
}

#[test]
fn no_records_leave_the_plan_alone() {
    let plan = aggregate(1, AggregateMode::Partial, vec![]);
    let rewritten = metadata_count_rewrite(vec![file(0), file(-4)], plan);
    assert_eq!(show(&rewritten, &count), "1");
    let plan = aggregate(1, AggregateMode::Partial, vec![]);
    assert_eq!(show(&metadata_count_rewrite(vec![], plan), &count), "1");
}

#[test]
fn a_plan_without_a_partial_aggregate_is_kept() {
    let plan = aggregate(
        1,
        AggregateMode::Single,
        vec![aggregate(2, AggregateMode::FinalPartitioned, vec![]), other(3, vec![])],
    );
    let rewritten = metadata_count_rewrite(vec![file(5)], plan);
    assert_eq!(show(&rewritten, &count), "1(2 3)");
}

#[test]
fn only_the_first_partial_aggregate_from_the_leaves_up_gets_the_input() {
    // the walk comes to 3 before its parent 2 and before its sibling 5
    let plan = aggregate(
        1,
        AggregateMode::Partial,
        vec![
            aggregate(2, AggregateMode::Partial, vec![
                other(9, vec![]),
                aggregate(3, AggregateMode::Partial, vec![other(4, vec![])]),
                other(8, vec![]),
            ]),
            aggregate(5, AggregateMode::Partial, vec![]),
        ],
    );
    let rewritten = metadata_count_rewrite(vec![file(7)], plan);
    assert_eq!(
        show(&rewritten, &count),
        "1(2(9 U(3(4) <records: 7 as schema 3>) 8) 5)"
    );
}

#[test]
fn the_top_of_a_plan_can_be_rewritten() {
    let plan = aggregate(1, AggregateMode::Partial, vec![other(2, vec![]), other(3, vec![])]);
    let rewritten = metadata_count_rewrite(vec![file(7)], plan);
    assert_eq!(show(&rewritten, &count), "U(1(2 3) <records: 7 as schema 1>)");
}

#[test]
fn records_add_up_without_negative_ones() {
    assert_eq!(metadata_records(&[]), 0);
    assert_eq!(metadata_records(&[file(11), file(31)]), 42);
    assert_eq!(metadata_records(&[file(11), file(-100), file(31)]), 42);
    assert_eq!(metadata_records(&[file(i64::MIN)]), 0);
}

#[test]
fn records_saturate() {
    assert_eq!(metadata_records(&[file(i64::MAX), file(1), file(5)]), i64::MAX);
    assert_eq!(metadata_records(&[file(i64::MAX - 1), file(1)]), i64::MAX);
}

#[test]
fn the_index_input_gets_files_condition_and_mode() {
    let plan: Plan<u32, String, TantivyOptimize<String, u8, char, bool>> = aggregate(
        1,
        AggregateMode::Final,
        vec![aggregate(2, AggregateMode::Partial, vec![])],
    );
    let rewritten =
        tantivy_optimize_rewrite(Arc::new("query".to_string()), vec![1u8, 2, 3], Some('c'), true, plan);
    let shown = show(&rewritten, &|x| {
        format!(
            "{} {:?} {:?} {}",
            x.query, x.file_list, x.index_condition, x.index_optimize_mode
        )
    });
    assert_eq!(shown, "1(U(2 <query [1, 2, 3] Some('c') true as schema 2>))");
}

#[test]
fn a_rewriter_places_its_input_once() {
    let mut rewriter = PartialAggregateUnionRewriter::new(MetadataCount { records: 3 });
    let kept = rewriter.f_up(other(1, vec![]));
    assert!(!kept.transformed);
    assert_eq!(kept.tnr, TreeNodeRecursion::Continue);
    let placed = rewriter.f_up(aggregate(2, AggregateMode::Partial, vec![]));
    assert!(placed.transformed);
    assert_eq!(placed.tnr, TreeNodeRecursion::Stop);
    assert_eq!(show(&placed.data, &count), "U(2 <records: 3 as schema 2>)");
    let late = rewriter.f_up(aggregate(4, AggregateMode::Partial, vec![]));
    assert!(!late.transformed);
    assert_eq!(late.tnr, TreeNodeRecursion::Continue);
    assert_eq!(show(&late.data, &count), "4");
}

#[test]
fn a_walk_looks_no_further_than_the_first_partial_aggregate() {
    let broken = || node::<MetadataCount>(7, "AggregateExec", None, vec![]);
    let partial = || aggregate::<MetadataCount>(2, AggregateMode::Partial, vec![]);
    assert!(!broken().can_be_rewritten());
    assert!(partial().can_be_rewritten());
    assert!(other::<MetadataCount>(1, vec![]).can_be_rewritten());
    assert!(!other(1, vec![broken(), partial()]).can_be_rewritten());
    assert!(!other(1, vec![other(3, vec![]), broken()]).can_be_rewritten());
    assert!(!aggregate(1, AggregateMode::Partial, vec![broken()]).can_be_rewritten());

    let behind = other(1, vec![partial(), broken()]);
    assert!(behind.can_be_rewritten());
    let rewritten = metadata_count_rewrite(vec![file(7)], behind);
    assert_eq!(show(&rewritten, &count), "1(U(2 <records: 7 as schema 2>) 7)");

    let above = node(7, "AggregateExec", None, vec![partial()]);
    assert!(above.can_be_rewritten());
}

#[test]
fn without_records_the_plan_is_not_looked_at() {
    let plan = node::<MetadataCount>(7, "AggregateExec", None, vec![]);
    assert_eq!(show(&metadata_count_rewrite(vec![file(0)], plan), &count), "7");
}
