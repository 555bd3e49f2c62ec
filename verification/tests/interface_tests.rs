//! The orchestrator's round driving: aggregation into means, the
//! reconstruction stop threshold, and the throughput window.
use avss_bench::config_treatment::result_fields::{ResultFields, TypeResultField};
use avss_bench::config_treatment::value::ConfigValue;
use avss_bench::interface::{Interface, NextMove};
use avss_bench::{Evaluation, Step};

fn num(n: u64) -> ConfigValue {
    ConfigValue::Num(n)
}

fn text(s: &str) -> ConfigValue {
    ConfigValue::Str(s.to_string())
}

/// A latency plan at n = 4, t_denom = 34, one round per position.
fn latency_plan() -> ConfigValue {
    let head = ConfigValue::Obj(vec![("output".to_string(), text("results"))]);
    let setup = ConfigValue::Obj(vec![
        ("n".to_string(), num(4)),
        ("t".to_string(), num(34)),
    ]);
    let latency = ConfigValue::Obj(vec![
        ("hmt".to_string(), num(1)),
        (
            "steps".to_string(),
            ConfigValue::Arr(vec![text("verify"), text("total_reconstruct")]),
        ),
    ]);
    ConfigValue::Arr(vec![
        head,
        ConfigValue::Obj(vec![
            ("setup".to_string(), setup),
            ("latency".to_string(), latency),
        ]),
    ])
}

/// A throughput plan: one window of two seconds measuring sharing.
fn debit_plan() -> ConfigValue {
    let head = ConfigValue::Obj(vec![("output".to_string(), text("results"))]);
    let setup = ConfigValue::Obj(vec![
        ("n".to_string(), ConfigValue::Arr(vec![num(4)])),
        ("t".to_string(), num(34)),
    ]);
    let debit = ConfigValue::Obj(vec![
        ("hmt".to_string(), num(1)),
        ("duration".to_string(), num(2)),
        ("sharing".to_string(), ConfigValue::Bool(true)),
    ]);
    ConfigValue::Arr(vec![
        head,
        ConfigValue::Obj(vec![
            ("setup".to_string(), setup),
            ("debit".to_string(), debit),
        ]),
    ])
}

fn report(verify: u128, first_receiv: u128) -> ResultFields {
    let mut r = ResultFields::new();
    r.set(TypeResultField::Verify, verify);
    r.set(TypeResultField::FirstReceiv, first_receiv);
    r
}

#[test]
fn averaged_fields_equal_the_arithmetic_mean() {
    let mut iface = Interface::new();
    assert!(iface.load_file(&latency_plan()).unwrap());
    iface.begin_round();
    // Four nodes report Verify 10, 20, 30, 40 and FirstReceiv 4, 4, 4, 8.
    let reports = [(10, 4), (20, 4), (30, 4), (40, 8)];
    let mut complete = false;
    for (v, f) in reports {
        let (done, stop) = iface.new_output(report(v, f));
        assert!(!stop);
        complete = done;
    }
    assert!(complete, "four reports close a round at n = 4");
    iface.average_round();
    assert_eq!(iface.result.get(TypeResultField::Verify), 25);
    assert_eq!(iface.result.get(TypeResultField::FirstReceiv), 5);
}

#[test]
fn reconstruction_stops_after_t_plus_one_reports() {
    let mut iface = Interface::new();
    assert!(iface.load_file(&latency_plan()).unwrap());
    iface.eval = Evaluation::Latency(Step::Reconstruct);
    iface.begin_round();
    let mut r1 = ResultFields::new();
    r1.set(TypeResultField::Reconstruction, 77);
    let (done, stop) = iface.new_output(r1);
    assert!(!done && !stop, "one report is below t + 1 = 2");
    let mut r2 = ResultFields::new();
    r2.set(TypeResultField::Reconstruction, 99);
    let (done, stop) = iface.new_output(r2);
    assert!(!done && stop, "the second report triggers STOP");
    assert_eq!(iface.reconstruction_time, 99);
}

#[test]
fn throughput_window_counts_rounds_then_concludes() {
    let mut iface = Interface::new();
    let latency = iface.load_file(&debit_plan()).unwrap();
    assert!(!latency, "a debit-only plan opens in throughput mode");
    iface.setup_debit();
    assert_eq!(iface.hmt, 1);
    // Inside the two-second window every completed round ticks the
    // sharing counter and another round starts at once.
    let mv = iface.process_debit(500);
    assert_eq!(mv, NextMove::Share);
    assert_eq!(iface.result.get(TypeResultField::DebitSharing), 1);
    let mv = iface.process_debit(1999);
    assert_eq!(mv, NextMove::Share);
    assert_eq!(iface.result.get(TypeResultField::DebitSharing), 2);
    // Past the window the only position of the only step is spent.
    let mv = iface.process_debit(2000);
    assert_eq!(mv, NextMove::Done);
}

#[test]
fn interrupt_swallows_one_round() {
    let mut iface = Interface::new();
    assert!(iface.load_file(&latency_plan()).unwrap());
    iface.interrupt();
    assert_eq!(iface.again(), NextMove::Idle);
    assert_eq!(iface.again(), NextMove::Share);
}

#[test]
fn setup_message_carries_the_round_parameters() {
    let mut iface = Interface::new();
    assert!(iface.load_file(&latency_plan()).unwrap());
    let msg = iface.build_setup(avss_bench::ByzComp::Honnest, false);
    assert_eq!(msg.len(), 8);
    assert_eq!(msg[0], 4, "SETUP command byte");
    assert_eq!(u16::from_le_bytes([msg[1], msg[2]]), 0, "dealer index");
    assert_eq!(msg[3], 0, "honest behaviour byte");
    assert_eq!(u16::from_le_bytes([msg[4], msg[5]]), 1, "t");
    assert_eq!(u16::from_le_bytes([msg[6], msg[7]]), 4, "n");
    let deal = Interface::build_dealthis(u128::MAX);
    assert_eq!(deal[0], 0, "DEALTHIS command byte");
    assert_eq!(u128::from_le_bytes(deal[1..17].try_into().unwrap()), u128::MAX);
}
