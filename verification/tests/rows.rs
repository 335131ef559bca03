use fan_dashboard::decimal::Decimal;
use fan_dashboard::rows::{display_order, flatten, listed_range, FlatRow};
use fan_dashboard::sensors::{Adapter, Input};

fn degrees(tenths: i64) -> Decimal {
    Decimal::new(tenths < 0, tenths.unsigned_abs(), -1)
}

fn row(adapter: &str, input: &str, tenths: i64) -> FlatRow {
    FlatRow { adapter: adapter.to_string(), input: input.to_string(), temperature: degrees(tenths) }
}

fn names(rows: &[FlatRow]) -> Vec<&str> {
    rows.iter().map(|row| row.input.as_str()).collect()
}

#[test]
fn sorts_by_descending_temperature() {
    let temps: Vec<Decimal> = [450, 510, -990, 475, 1200].iter().map(|t| degrees(*t)).collect();
    assert_eq!(display_order(&temps), vec![4, 1, 3, 0, 2]);
    assert_eq!(display_order(&vec![]), Vec::<usize>::new());
    assert_eq!(display_order(&vec![degrees(1)]), vec![0]);
}

#[test]
fn equal_temperatures_keep_their_order() {
    let temps = vec![
        Decimal::new(false, 45, 0),
        Decimal::new(false, 50, 0),
        Decimal::new(false, 450, -1),
        Decimal::new(false, 5, 1),
        Decimal::new(false, 45000, -3),
        Decimal::new(false, 500, -1),
    ];
    assert_eq!(display_order(&temps), vec![1, 3, 5, 0, 2, 4]);
    let zeros = vec![Decimal::new(false, 0, 0), Decimal::new(true, 0, 2), Decimal::new(false, 0, -4)];
    assert_eq!(display_order(&zeros), vec![0, 1, 2]);
}

#[test]
fn sorting_what_is_sorted_changes_nothing() {
    let temps: Vec<Decimal> = [450, 510, 450, -990, 475, 510].iter().map(|t| degrees(*t)).collect();
    let order = display_order(&temps);
    assert_eq!(order, vec![1, 5, 4, 0, 2, 3]);
    let sorted: Vec<Decimal> = order.iter().map(|i| temps[*i]).collect();
    assert_eq!(display_order(&sorted), vec![0, 1, 2, 3, 4, 5]);
    assert_eq!(display_order(&temps), order);
}

#[test]
fn lists_a_range_of_rows() {
    let rows = vec![row("a", "one", 450), row("a", "two", 510), row("b", "three", 450), row("b", "four", 600)];
    assert_eq!(names(&listed_range(&rows, false, 0, 4)), vec!["one", "two", "three", "four"]);
    assert_eq!(names(&listed_range(&rows, true, 0, 4)), vec!["four", "two", "one", "three"]);
    assert_eq!(names(&listed_range(&rows, true, 1, 3)), vec!["two", "one"]);
    assert_eq!(names(&listed_range(&rows, false, 1, 3)), vec!["two", "three"]);
    assert_eq!(names(&listed_range(&rows, true, 2, 2)), Vec::<&str>::new());
    let listed = listed_range(&rows, true, 3, 4);
    assert_eq!(listed[0].adapter, "b");
    assert_eq!(listed[0].temperature, degrees(450));
    let copy = rows[0].duplicate();
    assert_eq!((copy.adapter.as_str(), copy.input.as_str(), copy.temperature), ("a", "one", degrees(450)));
}

#[test]
fn flattens_adapters() {
    let adapters = vec![
        Adapter {
            name: "a".to_string(),
            inputs: vec![
                Input { name: "x".to_string(), temp: degrees(400) },
                Input { name: "y".to_string(), temp: degrees(500) },
            ],
        },
        Adapter { name: "b".to_string(), inputs: vec![] },
        Adapter { name: "c".to_string(), inputs: vec![Input { name: "z".to_string(), temp: degrees(-990) }] },
    ];
    let rows = flatten(&adapters);
    let listed: Vec<(&str, &str, Decimal)> =
        rows.iter().map(|row| (row.adapter.as_str(), row.input.as_str(), row.temperature)).collect();
    assert_eq!(listed, vec![("a", "x", degrees(400)), ("a", "y", degrees(500)), ("c", "z", degrees(-990))]);
    assert!(flatten(&vec![]).is_empty());
}
