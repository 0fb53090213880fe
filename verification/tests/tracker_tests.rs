// Tests for the inflation tracker. Rates are handed to the library in fixed
// point, as per-mille integers: 280 stands for 0.28 (28%). The floating-point
// compounding itself lives outside the library: the library plans it by
// handing back the per-mille factor of each year, and these tests fold the
// factors in f64 exactly as the report program does.

use inflation::InflationTracker;
use inflation::render::comparison_line;
use inflation::render::extremum_line;
use inflation::render::header_line;
use inflation::render::percent_string;
use inflation::render::savings_line;

const STARTING_YEAR: usize = 1993;

const CZECH_MILLI: [i64; 30] = [
    280, 100, 91, 88, 85, 107, 21, 39, 47, 18, 1, 28, 19, 25, 28, 63, 10, 15, 19, 33, 14, 4, 3, 7,
    25, 21, 28, 32, 38, 151,
];

const SLOVAK_MILLI: [i64; 30] = [
    232, 134, 99, 58, 61, 67, 106, 120, 73, 33, 85, 75, 27, 45, 28, 46, 16, 10, 39, 36, 14, -1,
    -3, -5, 13, 25, 27, 19, 32, 128,
];

fn filled(name: &str, rates: &[i64]) -> InflationTracker {
    let mut t = InflationTracker::new(name);
    let mut year = STARTING_YEAR;
    for &m in rates {
        t.insert(year, m);
        year += 1;
    }
    t
}

fn fold_future_val(money: f64, factors: &[i64]) -> f64 {
    let mut current = money;
    for &m in factors {
        current *= 1.00 - (m as f64) / 1000.0;
    }
    current
}

fn round2(num: f64) -> f64 {
    (num * 100.0).round() / 100.0
}

#[test]
fn unique_years_grow_the_map_in_insertion_order() {
    let mut t = InflationTracker::new("Czech Republic");
    assert_eq!(t.len(), 0);
    t.insert(1993, 280);
    t.insert(1994, 100);
    t.insert(1995, 91);
    assert_eq!(t.len(), 3);
    let lines = t.print_data();
    assert_eq!(lines.len(), 3);
    assert_eq!(lines[0], "1993 | 28.00%");
    assert_eq!(lines[1], "1994 | 10.00%");
    assert_eq!(lines[2], "1995 | 9.10%");
    assert_eq!(t.rate(1993), Some(280));
    assert_eq!(t.rate(1994), Some(100));
    assert_eq!(t.rate(1995), Some(91));
    assert_eq!(t.rate(1996), None);
}

#[test]
fn reinserting_a_year_keeps_size_and_position() {
    let mut t = InflationTracker::new("Czech Republic");
    t.insert(1993, 280);
    t.insert(1994, 100);
    t.insert(1995, 91);
    t.insert(1994, 55);
    assert_eq!(t.len(), 3);
    let lines = t.print_data();
    assert_eq!(lines.len(), 3);
    assert_eq!(lines[0], "1993 | 28.00%");
    assert_eq!(lines[1], "1994 | 5.50%");
    assert_eq!(lines[2], "1995 | 9.10%");
    assert_eq!(t.rate(1994), Some(55));
}

#[test]
fn extrema_bound_every_stored_rate() {
    let t = filled("Czech Republic", &CZECH_MILLI);
    let (_, max_rate) = t.get_max().unwrap();
    let (_, min_rate) = t.get_min().unwrap();
    assert!(CZECH_MILLI.iter().any(|&m| m == max_rate));
    assert!(CZECH_MILLI.iter().any(|&m| m == min_rate));
    for &m in CZECH_MILLI.iter() {
        assert!(max_rate >= m);
        assert!(min_rate <= m);
    }
}

#[test]
fn extrema_on_empty_tracker_are_absent() {
    let t = InflationTracker::new("Czech Republic");
    assert_eq!(t.get_max(), None);
    assert_eq!(t.get_min(), None);
    assert_eq!(t.highest_entry(), None);
    assert_eq!(t.lowest_entry(), None);
}

#[test]
fn extrema_ties_go_to_the_first_entry() {
    let mut t = InflationTracker::new("tie");
    t.insert(2000, 50);
    t.insert(2001, 50);
    t.insert(2002, 10);
    t.insert(2003, 10);
    assert_eq!(t.get_max(), Some((2000, 50)));
    assert_eq!(t.get_min(), Some((2002, 10)));
}

#[test]
fn clear_then_print_gives_exactly_the_warning_line() {
    let mut t = filled("Czech Republic", &CZECH_MILLI);
    t.clear();
    assert_eq!(t.country_name(), "");
    let lines = t.print_data();
    assert_eq!(lines, vec!["Warning: Found no data to print!".to_string()]);
}

#[test]
fn tracker_is_reusable_after_clear() {
    let mut t = filled("Czech Republic", &CZECH_MILLI);
    t.clear();
    let mut year = STARTING_YEAR;
    for &m in SLOVAK_MILLI.iter() {
        t.insert(year, m);
        year += 1;
    }
    t.change_country_name("Slovak Republic");
    assert_eq!(t.country_name(), "Slovak Republic");
    assert_eq!(t.len(), 30);
    assert_eq!(t.get_max(), Some((1993, 232)));
}

#[test]
fn empty_range_projection_returns_money_unchanged() {
    let t = filled("Czech Republic", &CZECH_MILLI);
    for &money in [0.0, 1.0, 100.0, 5000000.0, -42.5].iter() {
        for &year in [1900usize, 1993, 2023].iter() {
            let factors = t.erosion_factors(year, year).unwrap();
            assert!(factors.is_empty());
            assert_eq!(fold_future_val(money, &factors), money);
        }
    }
    // A start year past the end year also spans no years.
    let factors = t.erosion_factors(2000, 1995).unwrap();
    assert!(factors.is_empty());
}

#[test]
fn projection_over_a_missing_year_fails_with_that_year() {
    let mut t = InflationTracker::new("gap");
    t.insert(1993, 280);
    t.insert(1995, 91);
    assert_eq!(t.erosion_factors(1993, 1996), Err(1994));
    assert_eq!(t.erosion_factors(1990, 1994), Err(1990));
    let t2 = InflationTracker::new("empty");
    assert_eq!(t2.erosion_factors(1993, 2023), Err(1993));
}

#[test]
fn two_year_scenario_extrema() {
    let mut t = InflationTracker::new("Czech Republic");
    t.insert(1993, 280);
    t.insert(1994, 100);
    assert_eq!(t.get_max(), Some((1993, 280)));
    assert_eq!(t.get_min(), Some((1994, 100)));
    assert_eq!(t.highest_entry(), Some((1993, 280)));
    assert_eq!(t.lowest_entry(), Some((1994, 100)));
}

#[test]
fn two_year_scenario_future_value() {
    let mut t = InflationTracker::new("Czech Republic");
    t.insert(1993, 280);
    t.insert(1994, 100);
    let factors = t.erosion_factors(1993, 1995).unwrap();
    assert_eq!(factors, vec![280, 100]);
    let val = fold_future_val(100.0, &factors);
    assert_eq!(val, 100.0 * 0.72 * 0.90);
    assert_eq!(val, 64.8);
}

#[test]
fn czech_table_end_to_end() {
    let t = filled("Czech Republic", &CZECH_MILLI);
    assert_eq!(t.len(), 30);
    assert_eq!(t.get_max(), Some((1993, 280)));
    assert_eq!(t.get_min(), Some((2003, 1)));
    assert_eq!(t.highest_entry(), Some((1993, 280)));
    assert_eq!(t.lowest_entry(), Some((2003, 1)));
    assert_eq!(percent_string(280), "28.00");
    assert_eq!(percent_string(1), "0.10");
    let factors = t.erosion_factors(1993, 2023).unwrap();
    assert_eq!(factors.len(), 30);
    let total = fold_future_val(5000000.0, &factors);
    assert_eq!(round2(total), 1078343.79);
}

#[test]
fn slovak_table_end_to_end() {
    let t = filled("Slovak Republic", &SLOVAK_MILLI);
    assert_eq!(t.len(), 30);
    assert_eq!(t.get_max(), Some((1993, 232)));
    // The deflationary years compare as ordinary signed values: the least
    // rate of the table is -0.005, stored under 2016.
    assert_eq!(t.get_min(), Some((2016, -5)));
    assert_eq!(t.rate(2015), Some(-3));
    assert_eq!(percent_string(232), "23.20");
    assert_eq!(percent_string(-3), "-0.30");
    assert_eq!(percent_string(-5), "-0.50");
    let factors = t.erosion_factors(1993, 2023).unwrap();
    let total = fold_future_val(5000000.0, &factors);
    assert_eq!(round2(total), 885311.86);
}

#[test]
fn negative_rates_are_ordinary_signed_values() {
    let mut t = InflationTracker::new("deflation");
    t.insert(2014, -1);
    t.insert(2015, -3);
    t.insert(2016, -5);
    assert_eq!(t.get_max(), Some((2014, -1)));
    assert_eq!(t.get_min(), Some((2016, -5)));
    let factors = t.erosion_factors(2014, 2017).unwrap();
    let val = fold_future_val(1000.0, &factors);
    assert!(val > 1000.0);
}

#[test]
fn comparison_names_the_country_that_kept_less() {
    let czech = filled("Czech Republic", &CZECH_MILLI);
    let slovak = filled("Slovak Republic", &SLOVAK_MILLI);
    let czech_val = fold_future_val(5000000.0, &czech.erosion_factors(1993, 2023).unwrap());
    let slovak_val = fold_future_val(5000000.0, &slovak.erosion_factors(1993, 2023).unwrap());
    assert!(czech_val > slovak_val);
    let line = comparison_line("Czech Republic", "Slovak Republic", czech_val > slovak_val);
    assert_eq!(line, "Slovak Republic had a higher inflation rate than Czech Republic!");
    let other = comparison_line("Czech Republic", "Slovak Republic", false);
    assert_eq!(other, "Czech Republic had a higher inflation rate than Slovak Republic!");
}

#[test]
fn report_lines_render_exactly() {
    assert_eq!(header_line("Czech Republic"), "Data for Czech Republic:");
    assert_eq!(extremum_line("Maximum", 1993, 280), "Maximum was 1993: 28.00%");
    assert_eq!(extremum_line("Minimum", 2016, -5), "Minimum was 2016: -0.50%");
    assert_eq!(
        savings_line("5,000,000", "1,078,343.79"),
        "Saving 5,000,000 for 30 years in 1993 with no interest rate would mean having \
         1,078,343.79 in 2023"
    );
}

#[test]
fn percent_rendering_covers_signs_and_widths() {
    assert_eq!(percent_string(0), "0.00");
    assert_eq!(percent_string(280), "28.00");
    assert_eq!(percent_string(91), "9.10");
    assert_eq!(percent_string(151), "15.10");
    assert_eq!(percent_string(1000), "100.00");
    assert_eq!(percent_string(-1), "-0.10");
    assert_eq!(percent_string(-5), "-0.50");
    assert_eq!(percent_string(-1234), "-123.40");
}

#[test]
fn incremental_caches_follow_the_running_update_policy() {
    let mut t = InflationTracker::new("policy");
    t.insert(2000, 50);
    assert_eq!(t.highest_entry(), Some((2000, 50)));
    assert_eq!(t.lowest_entry(), Some((2000, 50)));
    // A strictly higher rate moves the high cache only.
    t.insert(2001, 70);
    assert_eq!(t.highest_entry(), Some((2001, 70)));
    assert_eq!(t.lowest_entry(), Some((2000, 50)));
    // A strictly lower rate moves the low cache only.
    t.insert(2002, 10);
    assert_eq!(t.highest_entry(), Some((2001, 70)));
    assert_eq!(t.lowest_entry(), Some((2002, 10)));
    // An in-between rate moves neither.
    t.insert(2003, 60);
    assert_eq!(t.highest_entry(), Some((2001, 70)));
    assert_eq!(t.lowest_entry(), Some((2002, 10)));
    // Re-binding an existing year leaves a single-entry map with refreshed
    // caches, but a larger map's caches can go stale: the running update
    // only ever compares against the caches, never rescans.
    t.insert(2001, 0);
    assert_eq!(t.highest_entry(), Some((2001, 70)));
    assert_eq!(t.lowest_entry(), Some((2001, 0)));
    // The authoritative scans read the live data instead.
    assert_eq!(t.get_max(), Some((2003, 60)));
    assert_eq!(t.get_min(), Some((2001, 0)));
}

#[test]
fn single_entry_reinsert_resets_both_caches() {
    let mut t = InflationTracker::new("one");
    t.insert(1999, 90);
    t.insert(1999, 20);
    assert_eq!(t.len(), 1);
    assert_eq!(t.highest_entry(), Some((1999, 20)));
    assert_eq!(t.lowest_entry(), Some((1999, 20)));
}
