use pice_core::metrics::{
    csv_row, format_table, pending_migrations, FailingCriterion, MetricsTableView, TierDistribution,
    CSV_HEADER,
};

#[test]
fn migrations_run_from_current_version() {
    assert_eq!(pending_migrations(0), vec![1, 2, 3, 4]);
    assert_eq!(pending_migrations(2), vec![3, 4]);
    assert_eq!(pending_migrations(4), Vec::<u32>::new());
    assert_eq!(pending_migrations(-3), vec![1, 2, 3, 4]);
}

#[test]
fn metrics_table_layout() {
    let v = MetricsTableView {
        total_evaluations: 12,
        total_loops: 3,
        pass_rate: format!("{:>4.1}", 75.0),
        avg_score: format!("{:>4.1}", 7.5),
        last_30_evaluations: 4,
        last_30_pass_rate: format!("{:>4.1}", 50.0),
        last_30_avg_score: format!("{:>4.1}", 6.25),
        tier_distribution: TierDistribution { tier1: 1, tier2: 10, tier3: 100000 },
        top_failing_criteria: vec![FailingCriterion {
            name: "Tests pass".into(),
            fail_count: 2,
            total_count: 5,
        }],
    };
    let expected = format!(
        "PICE Metrics\n═══════════════════════════════════════\n\nTotal evaluations:   {:>5}\nTotal PICE loops:    {:>5}\nPass rate:           {:>4.1}%\nAverage score:       {:>4.1}/10\n\nLast 30 days:\n  Evaluations:       {:>5}\n  Pass rate:         {:>4.1}%\n  Average score:     {:>4.1}/10\n\nTier distribution:\n  Tier 1:            {:>5}\n  Tier 2:            {:>5}\n  Tier 3:            {:>5}\n\nMost common failures:\n  {:<20} {}/{} failures\n",
        12, 3, 75.0, 7.5, 4, 50.0, 6.25, 1, 10, 100000, "Tests pass", 2, 5
    );
    assert_eq!(format_table(&v), expected);
    let empty = MetricsTableView { top_failing_criteria: vec![], ..v };
    assert!(!format_table(&empty).contains("Most common failures"));
}

#[test]
fn csv_rows() {
    assert_eq!(CSV_HEADER, "id,plan_path,feature_name,tier,passed,avg_score,timestamp\n");
    assert_eq!(
        csv_row(7, "plan.md", "Fix \"auth\" flow, part 1", 1, true, &format!("{:.1}", 8.0), "2024-01-01"),
        "7,\"plan.md\",\"Fix \"\"auth\"\" flow, part 1\",1,true,8.0,2024-01-01"
    );
    assert_eq!(csv_row(-1, "", "x", 3, false, "0.0", "t"), "-1,\"\",\"x\",3,false,0.0,t");
}
