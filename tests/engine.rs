use flood_report::annual::{annual_performance, yoy_change};
use flood_report::contractor::{contractor_ranking, reliability_index, top_ranked, RiskFlag};
use flood_report::export::{annual_fields, contractor_fields, format_count, format_hundredths, regional_fields};
use flood_report::loader::load_rows;
use flood_report::record::{parse_row, ProjectRecord, RowError, RowOutcome};
use flood_report::regional::{efficiency_score, regional_trends};
use flood_report::stats::median;
use flood_report::summary::{analyze, summarize};
use flood_report::text::{parse_amount, parse_int};

fn row(
    island: &str,
    region: &str,
    work: &str,
    year: &str,
    budget: &str,
    cost: &str,
    end: &str,
    contractor: &str,
    start: &str,
) -> Vec<String> {
    let mut r: Vec<String> = (0..17).map(|i| format!("x{}", i)).collect();
    r[0] = island.to_string();
    r[1] = region.to_string();
    r[8] = work.to_string();
    r[9] = year.to_string();
    r[11] = budget.to_string();
    r[12] = cost.to_string();
    r[13] = end.to_string();
    r[14] = contractor.to_string();
    r[16] = start.to_string();
    r
}

fn rec(region: &str, contractor: &str, year: i32, work: &str, budget: i64, cost: i64, delay: Option<i64>) -> ProjectRecord {
    ProjectRecord::new(
        region.to_string(),
        "Luzon".to_string(),
        contractor.to_string(),
        year,
        work.to_string(),
        budget,
        cost,
        delay,
    )
}

#[test]
fn kept_row_is_trimmed_and_parsed() {
    let r = row(" Luzon ", " Region I ", "Flood", " 2022 ", "1,000.50", "800", "2021-01-11", "ACME", "2021-01-01");
    match parse_row(&r) {
        RowOutcome::Kept(p) => {
            assert_eq!(p.main_island, "Luzon");
            assert_eq!(p.region, "Region I");
            assert_eq!(p.funding_year, 2022);
            assert_eq!(p.approved_budget, 100050);
            assert_eq!(p.contract_cost, 80000);
            assert_eq!(p.cost_savings, 20050);
            assert_eq!(p.completion_delay_days, Some(10));
        }
        _ => panic!("row should be kept"),
    }
}

#[test]
fn negative_delay_is_kept() {
    let r = row("Luzon", "R", "W", "2021", "10", "10", "2021-01-01", "C", "2021-01-31");
    match parse_row(&r) {
        RowOutcome::Kept(p) => assert_eq!(p.completion_delay_days, Some(-30)),
        _ => panic!("row should be kept"),
    }
}

#[test]
fn unreadable_date_leaves_delay_unknown() {
    let r = row("Luzon", "R", "W", "2021", "10", "10", "2021/01/11", "C", "2021-01-01");
    match parse_row(&r) {
        RowOutcome::Kept(p) => assert_eq!(p.completion_delay_days, None),
        _ => panic!("row should be kept"),
    }
}

#[test]
fn blank_field_skips_row() {
    let mut r = row("Luzon", "R", "W", "2021", "10", "10", "2021-01-11", "C", "2021-01-01");
    r[5] = "   ".to_string();
    assert!(matches!(parse_row(&r), RowOutcome::Filtered));
    let mut bad = row("Luzon", "R", "W", "abc", "x", "y", "z", "C", "w");
    bad[2] = "".to_string();
    assert!(matches!(parse_row(&bad), RowOutcome::Filtered));
}

#[test]
fn years_outside_window_are_skipped() {
    for y in ["2020", "2024", "1999"] {
        let r = row("Luzon", "R", "W", y, "10", "10", "2021-01-11", "C", "2021-01-01");
        assert!(matches!(parse_row(&r), RowOutcome::Filtered));
    }
    for y in ["2021", "2023"] {
        let r = row("Luzon", "R", "W", y, "10", "10", "2021-01-11", "C", "2021-01-01");
        assert!(matches!(parse_row(&r), RowOutcome::Kept(_)));
    }
}

#[test]
fn unreadable_fields_are_errors() {
    let r = row("Luzon", "R", "W", "20x1", "10", "10", "d", "C", "d");
    assert!(matches!(parse_row(&r), RowOutcome::Invalid(RowError::FundingYear)));
    let r = row("Luzon", "R", "W", "2021", "ten", "10", "d", "C", "d");
    assert!(matches!(parse_row(&r), RowOutcome::Invalid(RowError::ApprovedBudget)));
    let r = row("Luzon", "R", "W", "2021", "10", "1.2.3", "d", "C", "d");
    assert!(matches!(parse_row(&r), RowOutcome::Invalid(RowError::ContractCost)));
    let short: Vec<String> = vec!["a".to_string(), "b".to_string()];
    assert!(matches!(parse_row(&short), RowOutcome::Invalid(RowError::FundingYear)));
}

#[test]
fn number_notations() {
    assert_eq!(parse_int("2021"), Some(2021));
    assert_eq!(parse_int("-7"), Some(-7));
    assert_eq!(parse_int("+7"), Some(7));
    assert_eq!(parse_int("2147483648"), None);
    assert_eq!(parse_int("-2147483648"), Some(-2147483648));
    assert_eq!(parse_int(""), None);
    assert_eq!(parse_amount("1,234,567.891"), Some(123456789));
    assert_eq!(parse_amount("-5.5"), Some(-550));
    assert_eq!(parse_amount(".5"), Some(50));
    assert_eq!(parse_amount("7."), Some(700));
    assert_eq!(parse_amount("."), None);
    assert_eq!(parse_amount("1e5"), None);
    assert_eq!(parse_amount("10000000000001"), None);
}

#[test]
fn load_counts_every_row_once() {
    let rows = vec![
        row("Luzon", "R", "W", "2021", "10", "10", "2021-01-11", "C", "2021-01-01"),
        row("Luzon", "R", "W", "2019", "10", "10", "2021-01-11", "C", "2021-01-01"),
        row("Luzon", "R", "W", "2021", "bad", "10", "2021-01-11", "C", "2021-01-01"),
        row("Luzon", "", "W", "2021", "10", "10", "2021-01-11", "C", "2021-01-01"),
        row("Luzon", "S", "W", "2023", "20", "10", "2021-01-11", "C", "2021-01-01"),
    ];
    let d = load_rows(&rows);
    assert_eq!(d.total_rows, 5);
    assert_eq!(d.records.len(), 2);
    assert_eq!(d.filtered_rows, 2);
    assert_eq!(d.problems, vec![(2, RowError::ApprovedBudget)]);
    assert_eq!(d.skipped_rows(), 3);
    assert_eq!(d.records[1].region, "S");
}

#[test]
fn median_examples() {
    assert_eq!(median(&vec![]), 0);
    assert_eq!(median(&vec![20, 10]), 15);
    assert_eq!(median(&vec![30, 10, 20]), 20);
    assert_eq!(median(&vec![1, 2]), 1);
    assert_eq!(median(&vec![-3, -2]), -3);
}

#[test]
fn efficiency_score_stays_in_band() {
    // median 50 pesos (doubled, in centavos: 10000), 2 delays summing 60 days
    assert_eq!(efficiency_score(10000, 60, 2), 10000);
    // median 10 pesos, average delay 40 days: 25.00
    assert_eq!(efficiency_score(2000, 80, 2), 2500);
    assert_eq!(efficiency_score(-2000, 80, 2), 0);
    assert_eq!(efficiency_score(2000, -80, 2), 0);
    assert_eq!(efficiency_score(2000, 0, 2), 0);
    assert_eq!(efficiency_score(2000, 80, 0), 0);
    // average delay of 0.0005 days counts as zero
    assert_eq!(efficiency_score(2000, 1, 2000), 0);
}

#[test]
fn reliability_is_capped_not_floored() {
    assert_eq!(reliability_index(0, 1000, 100), 10000);
    assert_eq!(reliability_index(0, -500, 1000), -5000);
    // average delay 45 days halves the savings ratio of 50%: 25.00
    assert_eq!(reliability_index(4500, 500, 1000), 2500);
    // zero cost is taken as one peso
    assert_eq!(reliability_index(0, 50, 0), 5000);
    assert_eq!(reliability_index(18000, 1000, 1000), -10000);
}

#[test]
fn contractor_threshold_is_five() {
    let mut records = Vec::new();
    for _ in 0..4 {
        records.push(rec("R", "Four", 2021, "W", 1000, 900, Some(10)));
    }
    for _ in 0..5 {
        records.push(rec("R", "Five", 2021, "W", 1000, 900, Some(10)));
    }
    let r = contractor_ranking(&records);
    assert_eq!(r.len(), 1);
    assert_eq!(r[0].contractor, "Five");
    assert_eq!(r[0].project_count, 5);
    assert_eq!(r[0].total_cost, 4500);
    assert_eq!(r[0].total_savings, 500);
    assert_eq!(r[0].avg_delay, 1000);
    // (1 - 10/90) * (500/4500) * 100 = 9.87
    assert_eq!(r[0].reliability_index, 987);
    assert_eq!(r[0].risk_flag, RiskFlag::HighRisk);
    assert_eq!(r[0].risk_flag.label(), "High Risk");
}

#[test]
fn ranking_sorted_by_cost_with_dense_ranks() {
    let mut records = Vec::new();
    for (name, cost) in [("A", 100), ("B", 300), ("C", 200), ("D", 300)] {
        for _ in 0..5 {
            records.push(rec("R", name, 2022, "W", 1000, cost, None));
        }
    }
    let r = contractor_ranking(&records);
    let names: Vec<&str> = r.iter().map(|t| t.contractor.as_str()).collect();
    assert_eq!(names, vec!["B", "D", "C", "A"]);
    let ranks: Vec<usize> = r.iter().map(|t| t.rank).collect();
    assert_eq!(ranks, vec![1, 2, 3, 4]);
    assert_eq!(r[3].risk_flag, RiskFlag::LowRisk);
    assert_eq!(r[3].risk_flag.label(), "Low Risk");
}

#[test]
fn only_fifteen_rows_are_exported() {
    let mut records = Vec::new();
    for c in 0..17 {
        for _ in 0..5 {
            records.push(rec("R", &format!("C{}", c), 2022, "W", 1000, 100 + c, None));
        }
    }
    let all = contractor_ranking(&records);
    assert_eq!(all.len(), 17);
    let top = top_ranked(&all);
    assert_eq!(top.len(), 15);
    assert_eq!(top[14].rank, 15);
    let s = summarize(&records, &all);
    assert_eq!(s.total_contractors, 17);
}

#[test]
fn year_over_year_rules() {
    assert_eq!(yoy_change(2021, 500, 1, 100, 1), 0);
    assert_eq!(yoy_change(2022, 200, 1, 100, 1), 10000);
    assert_eq!(yoy_change(2022, 50, 1, -100, 1), 15000);
    assert_eq!(yoy_change(2022, 5, 1, 0, 2), 10000);
    assert_eq!(yoy_change(2022, -5, 1, 0, 2), 0);
    assert_eq!(yoy_change(2023, 5, 1, 7, 0), 0);
}

#[test]
fn annual_rows_and_order() {
    let records = vec![
        rec("R", "C", 2022, "Dike", 1000, 1200, None),
        rec("R", "C", 2021, "Dike", 1000, 900, None),
        rec("R", "C", 2022, "Wall", 1000, 500, None),
        rec("R", "C", 2022, "Dike", 1000, 800, None),
        rec("R", "C", 2021, "Wall", 1000, 1000, None),
    ];
    let a = annual_performance(&records);
    let keys: Vec<(i32, &str)> = a.iter().map(|m| (m.funding_year, m.type_of_work.as_str())).collect();
    assert_eq!(keys, vec![(2021, "Dike"), (2021, "Wall"), (2022, "Wall"), (2022, "Dike")]);
    assert_eq!(a[0].yoy_change, 0);
    // Dike 2022: savings -200 and 200, average 0 against 100 before: -100%
    assert_eq!(a[3].project_count, 2);
    assert_eq!(a[3].avg_savings, 0);
    assert_eq!(a[3].overrun_rate, 5000);
    assert_eq!(a[3].yoy_change, -10000);
    // Wall 2022: average 500 against 0 before: 100%
    assert_eq!(a[2].yoy_change, 10000);
}

#[test]
fn two_record_region_example() {
    let records = vec![
        rec("Region A", "C", 2021, "W", 100000, 80000, Some(10)),
        rec("Region A", "C", 2021, "W", 50000, 60000, Some(50)),
    ];
    let r = regional_trends(&records);
    assert_eq!(r.len(), 1);
    assert_eq!(r[0].total_budget, 150000);
    assert_eq!(r[0].median_savings, 5000);
    assert_eq!(r[0].avg_delay, 3000);
    assert_eq!(r[0].high_delay_pct, 5000);
    assert_eq!(r[0].efficiency_score, 10000);
}

#[test]
fn regions_sorted_by_efficiency() {
    let records = vec![
        rec("Low", "C", 2021, "W", 1000, 900, Some(100)),
        rec("High", "C", 2021, "W", 5000, 1000, Some(100)),
        rec("None", "C", 2021, "W", 1000, 900, None),
    ];
    let r = regional_trends(&records);
    let names: Vec<&str> = r.iter().map(|t| t.region.as_str()).collect();
    // 1 peso over 100 days: 1.00; 40 pesos over 100 days: 40.00
    assert_eq!(names, vec!["High", "Low", "None"]);
    assert_eq!(r[0].efficiency_score, 4000);
    assert_eq!(r[1].efficiency_score, 100);
    assert_eq!(r[2].avg_delay, 0);
    assert_eq!(r[2].high_delay_pct, 0);
}

#[test]
fn summary_and_analysis() {
    let records = vec![
        rec("A", "C", 2021, "W", 1000, 900, Some(10)),
        rec("B", "C", 2022, "W", 2000, 900, None),
        rec("A", "D", 2023, "W", 3000, 900, Some(21)),
    ];
    let reports = analyze(&records).expect("valid records");
    assert_eq!(reports.summary.total_projects, 3);
    assert_eq!(reports.summary.total_budget, 6000);
    assert_eq!(reports.summary.global_avg_delay, 1550);
    assert_eq!(reports.summary.total_contractors, 0);
    assert_eq!(reports.summary.total_regions, 2);
    assert_eq!(reports.regional.len(), 2);
    assert_eq!(reports.annual.len(), 3);
    let mut bad = records.clone();
    bad[0].funding_year = 2020;
    assert!(analyze(&bad).is_none());
}

#[test]
fn numbers_are_written_with_two_decimals() {
    assert_eq!(format_hundredths(0), "0.00");
    assert_eq!(format_hundredths(5), "0.05");
    assert_eq!(format_hundredths(-100), "-1.00");
    assert_eq!(format_hundredths(123456), "1234.56");
    assert_eq!(format_hundredths(-1), "-0.01");
    assert_eq!(format_count(0), "0");
    assert_eq!(format_count(2021), "2021");
}

#[test]
fn exported_numbers_read_back() {
    for v in [0i64, 7, -7, 99, 100, 123456789, -987654321, 1_000_000_000_000_000] {
        assert_eq!(parse_amount(&format_hundredths(v as i128)), Some(v));
    }
}

#[test]
fn exported_rows_hold_report_fields() {
    let records = vec![
        rec("Region A", "C", 2021, "W", 100000, 80000, Some(10)),
        rec("Region A", "C", 2021, "W", 50000, 60000, Some(50)),
    ];
    let reports = analyze(&records).expect("valid records");
    let fields = regional_fields(&reports.regional[0]);
    assert_eq!(fields, vec!["Region A", "Luzon", "1500.00", "50.00", "30.00", "50.00", "100.00"]);
    let annual = annual_fields(&reports.annual[0]);
    assert_eq!(annual, vec!["2021", "W", "2", "50.00", "50.00", "0.00"]);
    let mut five = Vec::new();
    for _ in 0..5 {
        five.push(rec("R", "K", 2022, "W", 1000, 900, None));
    }
    let ranking = contractor_ranking(&five);
    let c = contractor_fields(&ranking[0]);
    assert_eq!(c, vec!["1", "K", "45.00", "5", "0.00", "5.00", "11.11", "High Risk"]);
}

#[test]
fn equal_scores_keep_first_appearance() {
    let records = vec![
        rec("Beta", "C", 2021, "W", 1000, 900, None),
        rec("Alpha", "C", 2021, "W", 1000, 900, None),
        rec("Beta", "C", 2022, "W", 1000, 900, None),
    ];
    let r = regional_trends(&records);
    let names: Vec<&str> = r.iter().map(|t| t.region.as_str()).collect();
    assert_eq!(names, vec!["Beta", "Alpha"]);
    assert_eq!(r[0].total_budget, 2000);
}
