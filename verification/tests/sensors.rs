use fan_dashboard::decimal::Decimal;
use fan_dashboard::sensors::{
    build_adapters, inputs_of_chip, inputs_of_feature, names_temperature, parse_adapters,
    read_report, reading_from_text, Adapter, Chip, Feature, Input, SensorError, Subfeature,
};

/// The reading in degrees, for readings with few digits.
fn degrees(reading: &Decimal) -> f64 {
    let size = if reading.exponent < 0 {
        reading.coefficient as f64 / 10f64.powi(-reading.exponent)
    } else {
        reading.coefficient as f64 * 10f64.powi(reading.exponent)
    };
    if reading.negative {
        -size
    } else {
        size
    }
}

const T14S_AMD_GEN1: &str = r#"{
   "thinkpad-isa-0000":{
      "Adapter": "ISA adapter",
      "fan1":{
         "fan1_input": 0.000
      },
      "fan2":{
         "fan2_input": 65535.000
      },
      "CPU":{
         "temp1_input": 50.000
      },
      "GPU":{
         "temp2_input": 0.000
      },
      "temp3":{
         "temp3_input": 0.000
      }
   },
   "nvme-pci-0500":{
      "Adapter": "PCI adapter",
      "Composite":{
         "temp1_input": 41.850,
         "temp1_max": 83.850,
         "temp1_min": -273.150,
         "temp1_crit": 84.850,
         "temp1_alarm": 0.000
      }
   },
   "nvme-pci-0100":{
      "Adapter": "PCI adapter",
      "Composite":{
         "temp1_input": 37.850,
         "temp1_max": 80.850,
         "temp1_min": -273.150,
         "temp1_crit": 84.850,
         "temp1_alarm": 0.000
      },
      "Sensor 1":{
         "temp2_input": 37.850,
         "temp2_max": 65261.850,
         "temp2_min": -273.150
      },
      "Sensor 2":{
         "temp3_input": 38.850,
         "temp3_max": 65261.850,
         "temp3_min": -273.150
      }
   },
   "k10temp-pci-00c3":{
      "Adapter": "PCI adapter",
      "Tctl":{
         "temp1_input": 49.875
      }
   },
   "iwlwifi_1-virtual-0":{
      "Adapter": "Virtual device",
      "temp1":{
         "temp1_input": 43.000
      }
   },
   "BAT0-acpi-0":{
      "Adapter": "ACPI interface",
      "in0":{
         "in0_input": 12.221
      }
   },
   "amdgpu-pci-0700":{
      "Adapter": "PCI adapter",
      "vddgfx":{
         "in0_input": 0.774
      },
      "vddnb":{
         "in1_input": 0.731
      },
      "edge":{
         "temp1_input": 48.000
      },
      "slowPPT":{
         "power1_average": 4.000
      }
   },
   "acpitz-acpi-0":{
      "Adapter": "ACPI interface",
      "temp1":{
         "temp1_input": 50.000,
         "temp1_crit": 128.000
      }
   }
}"#;

#[test]
fn sensors_t14s_amd_gen1() {
    let adapters = parse_adapters(T14S_AMD_GEN1).unwrap();
    assert_eq!(adapters.len(), 7);

    assert_eq!(adapters[0].name, "acpitz-acpi-0");
    assert_eq!(adapters[0].inputs[0].name, "temp1");
    assert_eq!(degrees(&adapters[0].inputs[0].temp), 50.0);

    assert_eq!(adapters[1].name, "amdgpu-pci-0700");
    assert_eq!(adapters[1].inputs[0].name, "edge");
    assert_eq!(degrees(&adapters[1].inputs[0].temp), 48.0);

    assert_eq!(adapters[2].name, "iwlwifi_1-virtual-0");
    assert_eq!(adapters[2].inputs[0].name, "temp1");
    assert_eq!(degrees(&adapters[2].inputs[0].temp), 43.0);

    assert_eq!(adapters[3].name, "k10temp-pci-00c3");
    assert_eq!(adapters[3].inputs[0].name, "Tctl");
    assert_eq!(degrees(&adapters[3].inputs[0].temp), 49.875);

    assert_eq!(adapters[4].name, "nvme-pci-0100");
    assert_eq!(adapters[4].inputs[0].name, "Composite");
    assert_eq!(degrees(&adapters[4].inputs[0].temp), 37.85);
    assert_eq!(adapters[4].inputs[1].name, "Sensor 1");
    assert_eq!(degrees(&adapters[4].inputs[1].temp), 37.85);
    assert_eq!(adapters[4].inputs[2].name, "Sensor 2");
    assert_eq!(degrees(&adapters[4].inputs[2].temp), 38.85);

    assert_eq!(adapters[5].name, "nvme-pci-0500");
    assert_eq!(adapters[5].inputs[0].name, "Composite");
    assert_eq!(degrees(&adapters[5].inputs[0].temp), 41.85);

    assert_eq!(adapters[6].name, "thinkpad-isa-0000");
    assert_eq!(adapters[6].inputs[0].name, "CPU");
    assert_eq!(degrees(&adapters[6].inputs[0].temp), 50.0);
}

const T14S_AMD_GEN4: &str = r#"{
   "nvme-pci-0200":{
      "Adapter": "PCI adapter",
      "Composite":{ "temp1_input": 38.850, "temp1_max": 82.850, "temp1_min": -0.150, "temp1_crit": 89.850, "temp1_alarm": 0.000 },
      "Sensor 1":{ "temp2_input": 39.850, "temp2_max": 65261.850, "temp2_min": -273.150 },
      "Sensor 2":{ "temp3_input": 38.850, "temp3_max": 65261.850, "temp3_min": -273.150 }
   },
   "ath11k_hwmon-pci-0100":{
      "Adapter": "PCI adapter",
      "temp1":{ "temp1_input": 46.000 }
   },
   "thinkpad-isa-0000":{
      "Adapter": "ISA adapter",
      "fan1":{ "fan1_input": 0.000 },
      "fan2":{ "fan2_input": 0.000 },
      "CPU":{ "temp1_input": 45.000 },
      "GPU":{ "temp2_input": 0.000 },
      "temp3":{ "temp3_input": 45.000 },
      "temp4":{ "temp4_input": 0.000 },
      "temp5":{ "temp5_input": 0.000 },
      "temp6":{ "temp6_input": 45.000 },
      "temp7":{ "temp7_input": 45.000 },
      "temp8":{ "temp8_input": 0.000 }
   },
   "k10temp-pci-00c3":{
      "Adapter": "PCI adapter",
      "Tctl":{ "temp1_input": 45.250 }
   },
   "BAT0-acpi-0":{
      "Adapter": "ACPI interface",
      "in0":{ "in0_input": 17.309 },
      "power1":{ "power1_input": 0.000 }
   },
   "amdgpu-pci-c300":{
      "Adapter": "PCI adapter",
      "vddgfx":{ "in0_input": 1.449 },
      "vddnb":{ "in1_input": 0.662 },
      "edge":{ "temp1_input": 43.000 },
      "PPT":{ "power1_average": 5.141 }
   },
   "acpitz-acpi-0":{
      "Adapter": "ACPI interface",
      "temp1":{ "temp1_input": 45.000 }
   }
}"#;

#[test]
fn sensors_t14s_amd_gen4() {
    let adapters = parse_adapters(T14S_AMD_GEN4).unwrap();
    assert_eq!(adapters.len(), 6);

    assert_eq!(adapters[0].name, "acpitz-acpi-0");
    assert_eq!(adapters[0].inputs[0].name, "temp1");
    assert_eq!(degrees(&adapters[0].inputs[0].temp), 45.0);

    assert_eq!(adapters[1].name, "amdgpu-pci-c300");
    assert_eq!(adapters[1].inputs[0].name, "edge");
    assert_eq!(degrees(&adapters[1].inputs[0].temp), 43.0);

    assert_eq!(adapters[2].name, "ath11k_hwmon-pci-0100");
    assert_eq!(adapters[2].inputs[0].name, "temp1");
    assert_eq!(degrees(&adapters[2].inputs[0].temp), 46.0);

    assert_eq!(adapters[3].name, "k10temp-pci-00c3");
    assert_eq!(adapters[3].inputs[0].name, "Tctl");
    assert_eq!(degrees(&adapters[3].inputs[0].temp), 45.25);

    assert_eq!(adapters[4].name, "nvme-pci-0200");
    assert_eq!(adapters[4].inputs[0].name, "Composite");
    assert_eq!(degrees(&adapters[4].inputs[0].temp), 38.85);
    assert_eq!(adapters[4].inputs[1].name, "Sensor 1");
    assert_eq!(degrees(&adapters[4].inputs[1].temp), 39.85);
    assert_eq!(adapters[4].inputs[2].name, "Sensor 2");
    assert_eq!(degrees(&adapters[4].inputs[2].temp), 38.85);

    assert_eq!(adapters[5].name, "thinkpad-isa-0000");
    assert_eq!(adapters[5].inputs[0].name, "CPU");
    assert_eq!(degrees(&adapters[5].inputs[0].temp), 45.0);
    assert_eq!(adapters[5].inputs[1].name, "temp3");
    assert_eq!(degrees(&adapters[5].inputs[1].temp), 45.0);
    assert_eq!(adapters[5].inputs[2].name, "temp6");
    assert_eq!(degrees(&adapters[5].inputs[2].temp), 45.0);
    assert_eq!(adapters[5].inputs[3].name, "temp7");
    assert_eq!(degrees(&adapters[5].inputs[3].temp), 45.0);
}

const T490: &str = r#"{
   "coretemp-isa-0000":{
      "Adapter": "ISA adapter",
      "Package id 0":{ "temp1_input": 51.000, "temp1_max": 100.000, "temp1_crit": 100.000, "temp1_crit_alarm": 0.000 },
      "Core 0":{ "temp2_input": 47.000, "temp2_max": 100.000, "temp2_crit": 100.000, "temp2_crit_alarm": 0.000 },
      "Core 1":{ "temp3_input": 49.000, "temp3_max": 100.000, "temp3_crit": 100.000, "temp3_crit_alarm": 0.000 },
      "Core 2":{ "temp4_input": 51.000, "temp4_max": 100.000, "temp4_crit": 100.000, "temp4_crit_alarm": 0.000 },
      "Core 3":{ "temp5_input": 49.000, "temp5_max": 100.000, "temp5_crit": 100.000, "temp5_crit_alarm": 0.000 }
   },
   "thinkpad-isa-0000":{
      "Adapter": "ISA adapter",
      "fan1":{ "fan1_input": 0.000 },
      "CPU":{ "temp1_input": 46.000 },
      "GPU":{ "temp2_input": 0.000 },
      "temp3":{ "temp3_input": 0.000 },
      "temp4":{ "temp4_input": 0.000 },
      "temp5":{ "temp5_input": 34.000 },
      "temp6":{ "temp6_input": 0.000 },
      "temp7":{ "temp7_input": 0.000 },
      "temp8":{ "temp8_input": 0.000 }
   },
   "BAT0-acpi-0":{
      "Adapter": "ACPI interface",
      "in0":{ "in0_input": 12.452 }
   },
   "nvme-pci-3d00":{
      "Adapter": "PCI adapter",
      "Composite":{ "temp1_input": 43.850, "temp1_max": 86.850, "temp1_min": -273.150, "temp1_crit": 87.850, "temp1_alarm": 0.000 },
      "Sensor 1":{ "temp2_input": 43.850, "temp2_max": 65261.850, "temp2_min": -273.150 },
      "Sensor 2":{ "temp3_input": 42.850, "temp3_max": 65261.850, "temp3_min": -273.150 }
   },
   "pch_cannonlake-virtual-0":{
      "Adapter": "Virtual device",
      "temp1":{ "temp1_input": 43.000 }
   },
   "iwlwifi_1-virtual-0":{
      "Adapter": "Virtual device",
      "temp1":{ "temp1_input": 54.000 }
   },
   "acpitz-acpi-0":{
      "Adapter": "ACPI interface",
      "temp1":{ "temp1_input": 46.000, "temp1_crit": 128.000 }
   }
}"#;

#[test]
fn sensors_t490() {
    let adapters = parse_adapters(T490).unwrap();
    assert_eq!(adapters.len(), 6);

    assert_eq!(adapters[0].name, "acpitz-acpi-0");
    assert_eq!(adapters[0].inputs[0].name, "temp1");
    assert_eq!(degrees(&adapters[0].inputs[0].temp), 46.0);

    assert_eq!(adapters[1].name, "coretemp-isa-0000");
    assert_eq!(adapters[1].inputs[0].name, "Core 0");
    assert_eq!(degrees(&adapters[1].inputs[0].temp), 47.0);
    assert_eq!(adapters[1].inputs[1].name, "Core 1");
    assert_eq!(degrees(&adapters[1].inputs[1].temp), 49.0);
    assert_eq!(adapters[1].inputs[2].name, "Core 2");
    assert_eq!(degrees(&adapters[1].inputs[2].temp), 51.0);
    assert_eq!(adapters[1].inputs[3].name, "Core 3");
    assert_eq!(degrees(&adapters[1].inputs[3].temp), 49.0);
    assert_eq!(adapters[1].inputs[4].name, "Package id 0");
    assert_eq!(degrees(&adapters[1].inputs[4].temp), 51.0);

    assert_eq!(adapters[2].name, "iwlwifi_1-virtual-0");
    assert_eq!(adapters[2].inputs[0].name, "temp1");
    assert_eq!(degrees(&adapters[2].inputs[0].temp), 54.0);

    assert_eq!(adapters[3].name, "nvme-pci-3d00");
    assert_eq!(adapters[3].inputs[0].name, "Composite");
    assert_eq!(degrees(&adapters[3].inputs[0].temp), 43.85);
    assert_eq!(adapters[3].inputs[1].name, "Sensor 1");
    assert_eq!(degrees(&adapters[3].inputs[1].temp), 43.85);
    assert_eq!(adapters[3].inputs[2].name, "Sensor 2");
    assert_eq!(degrees(&adapters[3].inputs[2].temp), 42.85);

    assert_eq!(adapters[4].name, "pch_cannonlake-virtual-0");
    assert_eq!(adapters[4].inputs[0].name, "temp1");
    assert_eq!(degrees(&adapters[4].inputs[0].temp), 43.0);

    assert_eq!(adapters[5].name, "thinkpad-isa-0000");
    assert_eq!(adapters[5].inputs[0].name, "CPU");
    assert_eq!(degrees(&adapters[5].inputs[0].temp), 46.0);
    assert_eq!(adapters[5].inputs[1].name, "temp5");
    assert_eq!(degrees(&adapters[5].inputs[1].temp), 34.0);
}

#[test]
fn one_adapter_with_one_input() {
    let adapters = parse_adapters(r#"{"k10temp-pci-00c3": {"Tctl": {"temp1_input": 49.875}}}"#).unwrap();
    assert_eq!(adapters.len(), 1);
    assert_eq!(adapters[0].name, "k10temp-pci-00c3");
    assert_eq!(adapters[0].inputs.len(), 1);
    assert_eq!(adapters[0].inputs[0].name, "Tctl");
    assert_eq!(adapters[0].inputs[0].temp, Decimal::new(false, 49875, -3));
    assert_eq!(degrees(&adapters[0].inputs[0].temp), 49.875);
}

#[test]
fn zero_reading_drops_the_adapter() {
    for report in [
        r#"{"chip": {"temp1": {"temp1_input": 0.0}}}"#,
        r#"{"chip": {"temp1": {"temp1_input": 0}}}"#,
        r#"{"chip": {"temp1": {"temp1_input": -0.0}}}"#,
        r#"{"chip": {"temp1": {"temp1_input": 0.000}}}"#,
        r#"{"chip": {"temp1": {"temp1_input": 0e5}}}"#,
        r#"{"chip": {"temp1": {"temp1_input": 1e-999}}}"#,
        r#"{"chip": {"Adapter": "ISA adapter"}}"#,
        r#"{"chip": {}}"#,
        r#"{}"#,
    ] {
        assert!(parse_adapters(report).unwrap().is_empty(), "{}", report);
    }
    let adapters = parse_adapters(
        r#"{"a": {"x": {"temp1_input": 0.0}}, "b": {"x": {"temp1_input": 0.0}, "y": {"temp2_input": 1.5}}}"#,
    )
    .unwrap();
    assert_eq!(adapters.len(), 1);
    assert_eq!(adapters[0].name, "b");
    assert_eq!(adapters[0].inputs.len(), 1);
    assert_eq!(adapters[0].inputs[0].name, "y");
    assert_eq!(adapters[0].inputs[0].temp, Decimal::new(false, 15, -1));
}

#[test]
fn values_that_are_no_numbers_read_as_the_sentinel() {
    let adapters = parse_adapters(
        r#"{"chip": {"a": {"temp1_input": "49.0"}, "b": {"temp1_input": null}, "c": {"temp1_input": true},
            "d": {"temp1_input": [1]}, "e": {"temp1_input": {"x": 1}}, "f": {"temp1_input": -12.5},
            "g": {"temp1_input": 7}, "h": {"temp1_input": 1e300}, "i": {"temp1_input": 2.5e-7}}}"#,
    )
    .unwrap();
    assert_eq!(adapters.len(), 1);
    let readings: Vec<(&str, Decimal)> =
        adapters[0].inputs.iter().map(|input| (input.name.as_str(), input.temp)).collect();
    assert_eq!(
        readings,
        vec![
            ("a", Decimal::sentinel()),
            ("b", Decimal::sentinel()),
            ("c", Decimal::sentinel()),
            ("d", Decimal::sentinel()),
            ("e", Decimal::sentinel()),
            ("f", Decimal::new(true, 125, -1)),
            ("g", Decimal::new(false, 7, 0)),
            ("h", Decimal::new(false, 1, 300)),
            ("i", Decimal::new(false, 25, -8)),
        ]
    );
    assert_eq!(degrees(&Decimal::sentinel()), -99.0);
}

#[test]
fn large_and_small_numbers_are_read() {
    let adapters = parse_adapters(
        r#"{"chip": {
            "a": {"temp1_input": 18446744073709551615},
            "b": {"temp1_input": -9223372036854775808},
            "c": {"temp1_input": 0.1234567890123456789},
            "d": {"temp1_input": 1e21},
            "e": {"temp1_input": 123456789012345678901234567890},
            "f": {"temp1_input": 5e-324},
            "g": {"temp1_input": -1.7976931348623157e308},
            "h": {"temp1_input": 100.0},
            "i": {"temp1_input": 1234567890123456.75}
        }}"#,
    )
    .unwrap();
    let readings: Vec<Decimal> = adapters[0].inputs.iter().map(|input| input.temp).collect();
    assert_eq!(
        readings,
        vec![
            Decimal::new(false, 18446744073709551615, 0),
            Decimal::new(true, 9223372036854775808, 0),
            Decimal::new(false, 12345678901234568, -17),
            Decimal::new(false, 1, 21),
            Decimal::new(false, 12345678901234568, 13),
            Decimal::new(false, 5, -324),
            Decimal::new(true, 17976931348623157, 292),
            Decimal::new(false, 1000, -1),
            Decimal::new(false, 12345678901234568, -1),
        ]
    );
    assert!(readings.iter().all(|reading| *reading != Decimal::sentinel()));
}

#[test]
fn only_keys_with_temp_and_input_count() {
    let adapters = parse_adapters(
        r#"{"chip": {"f": {"temp1_max": 80.0, "temp1_crit": 90.0, "fan1_input": 2500.0, "temp1_input": 40.5,
                           "input_temp": 41.5, "my-temp-input-x": 42.5, "TEMP1_INPUT": 43.5, "tempinput": 44.5}}}"#,
    )
    .unwrap();
    let readings: Vec<Decimal> = adapters[0].inputs.iter().map(|input| input.temp).collect();
    // in key order: input_temp, my-temp-input-x, temp1_input, tempinput
    assert_eq!(
        readings,
        vec![
            Decimal::new(false, 415, -1),
            Decimal::new(false, 425, -1),
            Decimal::new(false, 405, -1),
            Decimal::new(false, 445, -1),
        ]
    );
    assert!(adapters[0].inputs.iter().all(|input| input.name == "f"));
    assert!(names_temperature("temp1_input"));
    assert!(names_temperature("input_of_temp"));
    assert!(!names_temperature("temp1_max"));
    assert!(!names_temperature("fan1_input"));
    assert!(!names_temperature("tem_pinput"));
    assert!(!names_temperature(""));
}

#[test]
fn malformed_reports() {
    for report in ["", "not json", "[1, 2]", "42", "\"text\"", "null", r#"{"chip": 1}"#, r#"{"a": {}, "b": "x"}"#, r#"{"a": {}} trailing"#, r#"{"a": {"#] {
        assert_eq!(parse_adapters(report).unwrap_err(), SensorError::MalformedInput, "{}", report);
        assert_eq!(read_report(report).unwrap_err(), SensorError::MalformedInput, "{}", report);
    }
}

#[test]
fn report_keeps_every_member() {
    let chips = read_report(r#"{"b": {"Adapter": "ISA adapter", "f": {"k": 1.50, "j": "x"}}, "a": {}}"#).unwrap();
    assert_eq!(chips.len(), 2);
    assert_eq!(chips[0].name, "a");
    assert!(chips[0].features.is_empty());
    assert_eq!(chips[1].name, "b");
    assert_eq!(chips[1].features.len(), 2);
    assert_eq!(chips[1].features[0].name, "Adapter");
    assert!(chips[1].features[0].subfeatures.is_none());
    assert_eq!(chips[1].features[1].name, "f");
    let subfeatures = chips[1].features[1].subfeatures.as_ref().unwrap();
    assert_eq!(subfeatures.len(), 2);
    assert_eq!((subfeatures[0].key.as_str(), subfeatures[0].value.as_str()), ("j", "\"x\""));
    assert_eq!((subfeatures[1].key.as_str(), subfeatures[1].value.as_str()), ("k", "1.5"));
}

fn chip(name: &str, features: Vec<Feature>) -> Chip {
    Chip { name: name.to_string(), features }
}

fn feature(name: &str, subfeatures: &[(&str, &str)]) -> Feature {
    Feature {
        name: name.to_string(),
        subfeatures: Some(
            subfeatures
                .iter()
                .map(|(key, value)| Subfeature { key: key.to_string(), value: value.to_string() })
                .collect(),
        ),
    }
}

#[test]
fn adapters_from_chips() {
    let chips = vec![
        chip("empty", vec![feature("f", &[("temp1_max", "1.0")])]),
        chip(
            "full",
            vec![
                Feature { name: "Adapter".to_string(), subfeatures: None },
                feature("one", &[("temp1_input", " 41.5 "), ("temp2_input", "0.000"), ("temp3_input", "x")]),
                feature("two", &[]),
                feature("three", &[("temp9_input", "-3e1")]),
            ],
        ),
    ];
    let adapters = build_adapters(&chips);
    assert_eq!(adapters.len(), 1);
    assert_eq!(adapters[0].name, "full");
    let readings: Vec<(&str, Decimal)> =
        adapters[0].inputs.iter().map(|input| (input.name.as_str(), input.temp)).collect();
    assert_eq!(
        readings,
        vec![
            ("one", Decimal::new(false, 415, -1)),
            ("one", Decimal::sentinel()),
            ("three", Decimal::new(true, 3, 1)),
        ]
    );
    assert_eq!(inputs_of_chip(&chips[0]).len(), 0);
    assert_eq!(inputs_of_feature(&chips[1].features[0]).len(), 0);
    assert_eq!(inputs_of_feature(&chips[1].features[1]).len(), 2);
}

#[test]
fn readings_from_text() {
    assert_eq!(reading_from_text("49.875"), Decimal::new(false, 49875, -3));
    assert_eq!(reading_from_text("  49.875\n"), Decimal::new(false, 49875, -3));
    assert_eq!(reading_from_text("\u{a0}7\u{3000}"), Decimal::new(false, 7, 0));
    assert_eq!(reading_from_text("4 9"), Decimal::sentinel());
    assert_eq!(reading_from_text(""), Decimal::sentinel());
    assert_eq!(reading_from_text("   "), Decimal::sentinel());
    assert_eq!(reading_from_text("18446744073709551616"), Decimal::sentinel());
}

#[test]
fn defaults_are_empty() {
    let input = Input::default();
    assert_eq!(input.name, "");
    assert!(input.temp.is_zero());
    let adapter = Adapter::default();
    assert_eq!(adapter.name, "");
    assert!(adapter.inputs.is_empty());
    let copy = adapter.clone();
    assert_eq!(copy.name, adapter.name);
}
