use amnis::Error;
use amnis::Gas;
use amnis::GasPlan;

fn dims(v: i64) -> [Option<i64>; 7] {
    [Some(v), Some(v), Some(v), Some(v), Some(v), Some(v), Some(v)]
}

fn plan(all: Option<i64>, d: [Option<i64>; 7]) -> Result<GasPlan, Error> {
    GasPlan::new(all, d[0], d[1], d[2], d[3], d[4], d[5], d[6])
}

#[test]
fn rigorous_plan_cap_is_dimension_sum() {
    let p = plan(None, dims(4)).unwrap();
    assert_eq!(p.get_cap(), Ok(28));
}

#[test]
fn overall_cap_below_sum_wins() {
    let p = plan(Some(10), dims(4)).unwrap();
    assert_eq!(p.get_cap(), Ok(10));
}

#[test]
fn dimension_sum_below_overall_cap_wins() {
    let p = plan(Some(100), dims(4)).unwrap();
    assert_eq!(p.get_cap(), Ok(28));
}

#[test]
fn missing_dimension_without_overall_cap_is_refused() {
    let r = GasPlan::new(None, Some(1), Some(1), Some(1), None, Some(1), Some(1), Some(1));
    assert_eq!(r.err(), Some(Error::InfGasPlan));
    let r = GasPlan::new(None, None, None, None, None, None, None, None);
    assert_eq!(r.err(), Some(Error::InfGasPlan));
}

#[test]
fn missing_dimension_with_overall_cap_is_accepted() {
    let p = GasPlan::new(Some(7), None, None, None, None, None, None, None).unwrap();
    assert_eq!(p.get_cap(), Ok(7));
}

#[test]
fn dimension_sum_overflow_fails_cleanly() {
    let p = GasPlan::new(
        None,
        Some(i64::MAX),
        Some(1),
        Some(0),
        Some(0),
        Some(0),
        Some(0),
        Some(0),
    )
    .unwrap();
    assert_eq!(p.get_cap(), Err(Error::GasPanOverflow));
}

#[test]
fn negative_partial_sum_overflow_fails_cleanly() {
    let p = GasPlan::new(
        None,
        Some(i64::MIN),
        Some(-1),
        Some(0),
        Some(0),
        Some(0),
        Some(0),
        Some(0),
    )
    .unwrap();
    assert_eq!(p.get_cap(), Err(Error::GasPanOverflow));
}

#[test]
fn unrestricted_plan_caps_at_max() {
    let p = GasPlan::max();
    assert_eq!(p.get_cap(), Ok(i64::MAX));
}

#[test]
fn zero_ledger_sums_to_zero() {
    let z = Gas::zero();
    assert_eq!(z.sum(), Some(0));
    assert!(z.is_rigourous());
}

#[test]
fn empty_ledger_is_not_rigorous() {
    let n = Gas::none();
    assert!(!n.is_rigourous());
}

#[test]
fn flat_plan_matches_nested_plan() {
    let p = amnis::gas_plan::GasPlan::new(
        Some(10),
        Some(4),
        Some(4),
        Some(4),
        Some(4),
        Some(4),
        Some(4),
        Some(4),
    )
    .unwrap();
    assert_eq!(p.get_cap(), 10);
    let q = amnis::gas_plan::GasPlan::new(
        None,
        Some(4),
        Some(4),
        Some(4),
        Some(4),
        Some(4),
        Some(4),
        Some(4),
    )
    .unwrap();
    assert_eq!(q.get_cap(), 28);
    let r = amnis::gas_plan::GasPlan::new(None, Some(1), None, None, None, None, None, None);
    assert!(r.is_err());
}
