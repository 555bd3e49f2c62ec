//! The plan layer: variation expansion, parameter derivation, result
//! vectors and the sweep bookkeeping.
use avss_bench::config_treatment::args::Args;
use avss_bench::config_treatment::fields::{Fields, TypeField};
use avss_bench::config_treatment::result_fields::{result_exists, ResultFields, TypeResultField};
use avss_bench::config_treatment::subargs::SubArgs;
use avss_bench::config_treatment::value::ConfigValue;
use avss_bench::config_treatment::variations::VariationData;
use avss_bench::{ErrorCode, Evaluation, Step};

fn num(n: u64) -> ConfigValue {
    ConfigValue::Num(n)
}

fn text(s: &str) -> ConfigValue {
    ConfigValue::Str(s.to_string())
}

#[test]
fn variation_expands_inclusive_range() {
    let tokens = vec![num(4), text(".."), num(7)];
    let data = VariationData::from_serde_str("n", &tokens).unwrap();
    assert_eq!(data.field(), TypeField::N);
    assert_eq!(data.count(), 4);
    assert_eq!(data.first(), 4);
}

#[test]
fn variation_range_is_four_five_six_seven() {
    let tokens = vec![num(4), text(".."), num(7)];
    let data = VariationData::from_serde_str("n", &tokens).unwrap();
    let mut sub = SubArgs::new();
    sub.set_variation_data(data);
    // The first position points the field at 4.
    assert_eq!(sub.get_fields().n(), 4);
}

#[test]
fn variation_refuses_leading_dots() {
    let tokens = vec![text(".."), num(7)];
    assert!(VariationData::from_serde_str("n", &tokens).is_err());
}

#[test]
fn variation_refuses_trailing_dots() {
    let tokens = vec![num(4), text("..")];
    assert!(VariationData::from_serde_str("n", &tokens).is_err());
}

#[test]
fn variation_refuses_stray_tokens() {
    let tokens = vec![num(4), ConfigValue::Bool(true)];
    assert!(VariationData::from_serde_str("n", &tokens).is_err());
}

#[test]
fn threshold_is_fraction_of_population() {
    let mut fields = Fields::new();
    fields.set(TypeField::N, 4);
    fields.set(TypeField::TDenom, 34);
    // (4 - 1) * 34 / 100 = 1
    assert_eq!(fields.t(), 1);
    fields.set(TypeField::N, 61);
    fields.set(TypeField::TDenom, 20);
    // (61 - 1) * 20 / 100 = 12
    assert_eq!(fields.t(), 12);
}

#[test]
fn result_fields_round_trip_through_bytes() {
    let mut r = ResultFields::new();
    r.set(TypeResultField::Verify, 7);
    r.set(TypeResultField::Reconstruction, 123456789012345678901234567890u128);
    let bytes = r.to_bytes(ErrorCode::IncoherentBatch);
    assert_eq!(bytes.len(), 145);
    let back = ResultFields::from_bytes(&bytes);
    assert!(back.is_err());
    assert_eq!(back.get(TypeResultField::Verify), 7);
    assert_eq!(
        back.get(TypeResultField::Reconstruction),
        123456789012345678901234567890u128
    );
    assert_eq!(back.get(TypeResultField::Dealing), 0);
}

#[test]
fn metric_directory_knows_its_names() {
    assert!(result_exists("verify"));
    assert!(result_exists("total_reconstruct"));
    assert!(result_exists("sharing"));
    assert!(!result_exists("bogus"));
    let mut r = ResultFields::new();
    r.set(TypeResultField::DebitSharing, 42);
    assert_eq!(r.get_from_str("sharing"), 42);
}

/// A plan mirroring a sweep of n over 4..=7 with three latency rounds
/// per position.
fn sweep_plan() -> ConfigValue {
    let head = ConfigValue::Obj(vec![("output".to_string(), text("results"))]);
    let setup = ConfigValue::Obj(vec![
        ("t".to_string(), num(34)),
        (
            "n".to_string(),
            ConfigValue::Arr(vec![num(4), text(".."), num(7)]),
        ),
    ]);
    let latency = ConfigValue::Obj(vec![
        ("hmt".to_string(), num(3)),
        (
            "steps".to_string(),
            ConfigValue::Arr(vec![text("total_sharing"), text("verify")]),
        ),
    ]);
    let step = ConfigValue::Obj(vec![
        ("setup".to_string(), setup),
        ("latency".to_string(), latency),
    ]);
    ConfigValue::Arr(vec![head, step])
}

fn ok_result(total: u128) -> ResultFields {
    let mut r = ResultFields::new();
    r.set(TypeResultField::Total, total);
    r.set(TypeResultField::Verify, total / 2);
    r
}

#[test]
fn sweep_runs_four_positions_of_three_rounds() {
    let mut args = Args::from_file(&sweep_plan()).unwrap();
    let eval = args.init();
    assert_eq!(eval, Evaluation::Latency(Step::Sharing));
    assert_eq!(args.n(), 4);
    assert_eq!(args.t(), 1);
    assert_eq!(args.hmt(eval), 3);
    let mut rounds = 0;
    loop {
        let (next, _) = args.evolve(ok_result(30), eval);
        rounds += 1;
        if next.is_none() {
            break;
        }
        assert!(rounds < 100, "sweep failed to conclude");
    }
    // Four positions, three rounds each.
    assert_eq!(rounds, 12);
    let conclusion = args.conclude();
    match conclusion {
        ConfigValue::Arr(entries) => {
            assert_eq!(entries.len(), 1);
            match &entries[0] {
                ConfigValue::Obj(fields) => {
                    assert_eq!(fields[0].0, "args");
                    let args_obj = match &fields[0].1 {
                        ConfigValue::Obj(m) => m,
                        _ => panic!("args entry is not an object"),
                    };
                    assert_eq!(args_obj[0].0, "field");
                    match &args_obj[0].1 {
                        ConfigValue::Str(s) => assert_eq!(s, "n"),
                        _ => panic!("field name is not text"),
                    }
                    assert_eq!(args_obj[1].0, "variation");
                    match &args_obj[1].1 {
                        ConfigValue::Arr(vals) => {
                            let got: Vec<u64> = vals
                                .iter()
                                .map(|v| match v {
                                    ConfigValue::Num(n) => *n,
                                    _ => panic!("variation value is not a number"),
                                })
                                .collect();
                            assert_eq!(got, vec![4, 5, 6, 7]);
                        }
                        _ => panic!("variation is not an array"),
                    }
                    assert_eq!(fields[1].0, "latency");
                    match &fields[1].1 {
                        ConfigValue::Obj(metrics) => {
                            for (_, v) in metrics {
                                match v {
                                    ConfigValue::Arr(vals) => assert_eq!(vals.len(), 4),
                                    _ => panic!("metric vector is not an array"),
                                }
                            }
                        }
                        _ => panic!("latency map is not an object"),
                    }
                }
                _ => panic!("conclusion entry is not an object"),
            }
        }
        _ => panic!("conclusion is not an array"),
    }
}

#[test]
fn per_position_values_are_means_over_hmt() {
    let mut args = Args::from_file(&sweep_plan()).unwrap();
    let eval = args.init();
    // One full position: rounds totalling 30 + 60 + 90 = 180; mean 60.
    args.evolve(ok_result(30), eval);
    args.evolve(ok_result(60), eval);
    args.evolve(ok_result(90), eval);
    // Finish the sweep so the conclusion materializes.
    loop {
        let (next, _) = args.evolve(ok_result(30), eval);
        if next.is_none() {
            break;
        }
    }
    let conclusion = args.conclude();
    let entries = match conclusion {
        ConfigValue::Arr(e) => e,
        _ => panic!("conclusion is not an array"),
    };
    let fields = match &entries[0] {
        ConfigValue::Obj(m) => m,
        _ => panic!("entry is not an object"),
    };
    let latency = match &fields[1].1 {
        ConfigValue::Obj(m) => m,
        _ => panic!("latency map missing"),
    };
    for (name, v) in latency {
        let vals = match v {
            ConfigValue::Arr(a) => a,
            _ => panic!("metric vector is not an array"),
        };
        match (&name[..], &vals[0]) {
            ("total_sharing", ConfigValue::Num(first)) => assert_eq!(*first, 60),
            ("verify", ConfigValue::Num(first)) => assert_eq!(*first, 30),
            _ => panic!("unexpected metric"),
        }
    }
}

#[test]
fn failed_rounds_do_not_advance_the_sweep() {
    let mut sub = SubArgs::new();
    sub.set_latency_hmt(2);
    sub.add_result("verify").unwrap();
    let mut bad = ResultFields::new();
    bad.set_code(ErrorCode::UnvalidSigns);
    let ((stop, evolved), rec) =
        sub.evolve(bad, Evaluation::Latency(Step::Sharing), false);
    assert!(!stop && !evolved && rec.is_none());
}
