use fan_dashboard::bar::{band_of_cell, band_of_reading, fill, indicator_color, render_bar, Band, Rgb};
use fan_dashboard::decimal::Decimal;

const GREEN_LIGHT: Rgb = Rgb { red: 165, green: 183, blue: 0 };
const YELLOW_LIGHT: Rgb = Rgb { red: 227, green: 168, blue: 43 };
const RED_LIGHT: Rgb = Rgb { red: 204, green: 31, blue: 26 };
const GREEN_DARK: Rgb = Rgb { red: 68, green: 68, blue: 37 };
const YELLOW_DARK: Rgb = Rgb { red: 94, green: 78, blue: 40 };
const RED_DARK: Rgb = Rgb { red: 76, green: 32, blue: 32 };

#[test]
fn eighty_degrees_on_ten_cells() {
    let t = Decimal::new(false, 80, 0);
    assert_eq!(fill(&t, 10), 8);
    assert_eq!(
        render_bar(&t, 10),
        vec![
            GREEN_LIGHT, GREEN_LIGHT, GREEN_LIGHT, GREEN_LIGHT, GREEN_LIGHT,
            YELLOW_LIGHT, YELLOW_LIGHT, YELLOW_LIGHT,
            RED_DARK, RED_DARK,
        ]
    );
    assert_eq!(indicator_color(&t), RED_LIGHT);
}

#[test]
fn colour_table() {
    assert_eq!(Band::Cool.light(), GREEN_LIGHT);
    assert_eq!(Band::Warm.light(), YELLOW_LIGHT);
    assert_eq!(Band::Hot.light(), RED_LIGHT);
    assert_eq!(Band::Cool.dark(), GREEN_DARK);
    assert_eq!(Band::Warm.dark(), YELLOW_DARK);
    assert_eq!(Band::Hot.dark(), RED_DARK);
}

#[test]
fn bands_of_cells() {
    // width 20: 9 / 20 = 0.45 and 15 / 20 = 0.75 open the next band
    assert_eq!(band_of_cell(8, 20), Band::Cool);
    assert_eq!(band_of_cell(9, 20), Band::Warm);
    assert_eq!(band_of_cell(14, 20), Band::Warm);
    assert_eq!(band_of_cell(15, 20), Band::Hot);
    assert_eq!(band_of_cell(0, 1), Band::Cool);
    assert_eq!(band_of_cell(65534, 65535), Band::Hot);
    assert_eq!(band_of_cell(0, 0), Band::Hot);
}

#[test]
fn bands_of_readings() {
    assert_eq!(band_of_reading(&Decimal::new(false, 44999, -3)), Band::Cool);
    assert_eq!(band_of_reading(&Decimal::new(false, 45, 0)), Band::Warm);
    assert_eq!(band_of_reading(&Decimal::new(false, 74999, -3)), Band::Warm);
    assert_eq!(band_of_reading(&Decimal::new(false, 750, -1)), Band::Hot);
    assert_eq!(band_of_reading(&Decimal::sentinel()), Band::Cool);
    assert_eq!(band_of_reading(&Decimal::new(false, 1, 9)), Band::Hot);
    assert_eq!(indicator_color(&Decimal::new(false, 49875, -3)), YELLOW_LIGHT);
    assert_eq!(indicator_color(&Decimal::new(false, 30, 0)), GREEN_LIGHT);
}

#[test]
fn fill_is_rounded_and_clamped() {
    assert_eq!(fill(&Decimal::new(false, 49875, -3), 10), 5);
    assert_eq!(fill(&Decimal::new(false, 45, 0), 10), 5); // 4.5 rounds upwards
    assert_eq!(fill(&Decimal::new(false, 449, -1), 10), 4);
    assert_eq!(fill(&Decimal::new(false, 35, 0), 10), 4);
    assert_eq!(fill(&Decimal::new(false, 4, 0), 10), 0);
    assert_eq!(fill(&Decimal::new(false, 5, 0), 10), 1);
    assert_eq!(fill(&Decimal::new(false, 5, 1), 10), 5);
    assert_eq!(fill(&Decimal::new(false, 100, 0), 10), 10);
    assert_eq!(fill(&Decimal::new(false, 1, 2), 10), 10);
    assert_eq!(fill(&Decimal::new(false, 250, 0), 10), 10);
    assert_eq!(fill(&Decimal::new(false, 1, 300), 7), 7);
    assert_eq!(fill(&Decimal::sentinel(), 10), 0);
    assert_eq!(fill(&Decimal::new(false, 0, 0), 10), 0);
    assert_eq!(fill(&Decimal::new(false, 1, -300), 65535), 0);
    assert_eq!(fill(&Decimal::new(false, u64::MAX, -18), 65535), 12089);
    assert_eq!(fill(&Decimal::new(false, 99999, -3), 65535), 65534);
    assert_eq!(fill(&Decimal::new(false, 80, 0), 0), 0);
    assert_eq!(fill(&Decimal::new(false, 5, -1), 100), 1);
    assert_eq!(fill(&Decimal::new(false, 49, -2), 100), 0);
    assert_eq!(fill(&Decimal::new(false, 5, -27), 100), 0);
}

#[test]
fn cold_and_hot_bars() {
    assert_eq!(render_bar(&Decimal::sentinel(), 4), vec![GREEN_DARK, GREEN_DARK, YELLOW_DARK, RED_DARK]);
    assert_eq!(render_bar(&Decimal::new(false, 120, 0), 4), vec![GREEN_LIGHT, GREEN_LIGHT, YELLOW_LIGHT, RED_LIGHT]);
    assert_eq!(render_bar(&Decimal::new(false, 50, 0), 0), vec![]);
}
