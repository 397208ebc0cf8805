use std::collections::BTreeMap;

use snapfaas::label::{Clause, Component, DCLabel};
use snapfaas::session::{Phase, Reply, Step, Syscall, Vm};

/// Carries out steps against an in-memory store, as the host loop does.
fn run(vm: &mut Vm, store: &mut BTreeMap<Vec<u8>, Vec<u8>>, sc: Syscall) -> Option<Reply> {
    match vm.on_syscall(sc) {
        Step::Finish { .. } => None,
        Step::Ignore => None,
        Step::Send { reply } => Some(reply),
        Step::Read { key } => Some(vm.store_read(store.get(&key).cloned())),
        Step::Write { key, value } => {
            store.insert(key, value);
            Some(vm.store_written(true))
        }
    }
}

fn secrecy_of(r: &Reply) -> Vec<Vec<String>> {
    match r {
        Reply::DcLabel { label } => match &label.secrecy {
            Component::DCFormula(v) => v.iter().map(|c| c.0.clone()).collect(),
            Component::DCFalse => panic!("secrecy is False"),
        },
        _ => panic!("not a label reply"),
    }
}

#[test]
fn echo_response_finishes() {
    let mut vm = Vm::new_dummy(128);
    match vm.on_syscall(Syscall::Response { payload: "hello".to_string() }) {
        Step::Finish { payload } => assert_eq!(payload, "hello"),
        _ => panic!("expected the session to finish"),
    }
    assert_eq!(vm.phase(), Phase::Finished);
}

#[test]
fn read_then_respond() {
    let mut vm = Vm::new(1, 128, "f".to_string());
    let mut store = BTreeMap::new();
    store.insert(b"greet".to_vec(), b"hi".to_vec());
    match run(&mut vm, &mut store, Syscall::ReadKey { key: b"greet".to_vec() }) {
        Some(Reply::ReadKeyResponse { value }) => assert_eq!(value, Some(b"hi".to_vec())),
        _ => panic!("expected a read reply"),
    }
    assert_eq!(vm.phase(), Phase::Idle);
}

#[test]
fn write_then_read_sees_value() {
    let mut vm = Vm::new(2, 128, "f".to_string());
    let mut store = BTreeMap::new();
    match run(&mut vm, &mut store, Syscall::WriteKey { key: b"k".to_vec(), value: b"v".to_vec() }) {
        Some(Reply::WriteKeyResponse { success }) => assert!(success),
        _ => panic!("expected a write reply"),
    }
    match run(&mut vm, &mut store, Syscall::ReadKey { key: b"k".to_vec() }) {
        Some(Reply::ReadKeyResponse { value }) => assert_eq!(value, Some(b"v".to_vec())),
        _ => panic!("expected a read reply"),
    }
    assert!(run(&mut vm, &mut store, Syscall::Response { payload: "ok".to_string() }).is_none());
}

#[test]
fn absent_key_reads_none() {
    let mut vm = Vm::new_dummy(64);
    assert!(matches!(vm.on_syscall(Syscall::ReadKey { key: b"nope".to_vec() }), Step::Read { .. }));
    assert_eq!(vm.phase(), Phase::AwaitingRead);
    match vm.store_read(None) {
        Reply::ReadKeyResponse { value } => assert!(value.is_none()),
        _ => panic!("expected a read reply"),
    }
}

#[test]
fn failed_write_replies_false() {
    let mut vm = Vm::new_dummy(64);
    assert!(matches!(vm.on_syscall(Syscall::WriteKey { key: vec![1], value: vec![2] }), Step::Write { .. }));
    assert_eq!(vm.phase(), Phase::AwaitingWrite);
    assert!(matches!(vm.store_written(false), Reply::WriteKeyResponse { success: false }));
}

#[test]
fn taint_then_get_label() {
    let mut vm = Vm::new_dummy(128);
    let mut store = BTreeMap::new();
    let taint = DCLabel::new(
        Component::DCFormula(vec![Clause::new(vec!["alice".to_string()])]),
        Component::DCFalse,
    );
    let r = run(&mut vm, &mut store, Syscall::TaintWithLabel { label: taint }).unwrap();
    assert_eq!(secrecy_of(&r), vec![vec!["alice".to_string()]]);
    if let Reply::DcLabel { label } = &r {
        assert!(label.integrity.is_false());
    }
    let r2 = run(&mut vm, &mut store, Syscall::GetCurrentLabel).unwrap();
    assert_eq!(secrecy_of(&r2), vec![vec!["alice".to_string()]]);
    if let Reply::DcLabel { label } = &r2 {
        assert!(label.integrity.is_false());
    }
}

#[test]
fn taint_join_minimizes() {
    let mut vm = Vm::new_dummy(128);
    let mut store = BTreeMap::new();
    let ab = DCLabel::new(
        Component::DCFormula(vec![Clause::new(vec!["a".to_string(), "b".to_string()])]),
        Component::dc_true(),
    );
    let a = DCLabel::new(
        Component::DCFormula(vec![Clause::new(vec!["a".to_string()])]),
        Component::dc_true(),
    );
    run(&mut vm, &mut store, Syscall::TaintWithLabel { label: ab });
    let r = run(&mut vm, &mut store, Syscall::TaintWithLabel { label: a }).unwrap();
    assert_eq!(secrecy_of(&r), vec![vec!["a".to_string()]]);
    match &vm.current_label().secrecy {
        Component::DCFormula(v) => assert_eq!(v.len(), 1),
        Component::DCFalse => panic!("secrecy is False"),
    }
}

#[test]
fn unknown_variant_is_skipped() {
    let mut vm = Vm::new_dummy(128);
    let mut store = BTreeMap::new();
    assert!(matches!(vm.on_syscall(Syscall::Unknown), Step::Ignore));
    assert_eq!(vm.phase(), Phase::Idle);
    assert!(run(&mut vm, &mut store, Syscall::GetCurrentLabel).is_some());
}

#[test]
fn dummy_vm_fields() {
    let vm = Vm::new_dummy(256);
    assert_eq!(vm.id(), 0);
    assert_eq!(vm.memory(), 256);
    assert_eq!(vm.function_name(), "");
    assert_eq!(vm.phase(), Phase::Idle);
}

#[test]
fn every_access_is_allowed() {
    let mut vm = Vm::new_dummy(128);
    assert!(vm.may_access(&b"k".to_vec()));
    let taint = DCLabel::new(Component::dc_false(), Component::dc_false());
    vm.on_syscall(Syscall::TaintWithLabel { label: taint });
    assert!(vm.current_label().secrecy.is_false());
    assert!(vm.may_access(&b"k".to_vec()));
    assert!(matches!(vm.on_syscall(Syscall::ReadKey { key: b"k".to_vec() }), Step::Read { .. }));
}

fn secrecy_sets(vm: &Vm) -> Vec<Vec<String>> {
    match &vm.current_label().secrecy {
        Component::DCFormula(v) => {
            let mut out: Vec<Vec<String>> = v
                .iter()
                .map(|c| {
                    let mut ps = c.0.clone();
                    ps.sort();
                    ps
                })
                .collect();
            out.sort();
            out
        }
        Component::DCFalse => panic!("secrecy is False"),
    }
}

#[test]
fn taint_order_does_not_matter() {
    let labels = || {
        vec![
            DCLabel::new(
                Component::DCFormula(vec![Clause::new(vec!["a".to_string(), "b".to_string()])]),
                Component::dc_true(),
            ),
            DCLabel::new(
                Component::DCFormula(vec![Clause::new(vec!["c".to_string()])]),
                Component::dc_true(),
            ),
            DCLabel::new(
                Component::DCFormula(vec![Clause::new(vec!["b".to_string()])]),
                Component::dc_true(),
            ),
        ]
    };
    let mut forward = Vm::new_dummy(1);
    for l in labels() {
        forward.on_syscall(Syscall::TaintWithLabel { label: l });
    }
    let mut backward = Vm::new_dummy(1);
    for l in labels().into_iter().rev() {
        backward.on_syscall(Syscall::TaintWithLabel { label: l });
    }
    let expect = vec![vec!["b".to_string()], vec!["c".to_string()]];
    assert_eq!(secrecy_sets(&forward), expect);
    assert_eq!(secrecy_sets(&backward), expect);
}

#[test]
fn vm_serves_another_request_keeping_its_label() {
    let mut vm = Vm::new(4, 128, "f".to_string());
    let taint = DCLabel::new(
        Component::DCFormula(vec![Clause::new(vec!["alice".to_string()])]),
        Component::dc_true(),
    );
    vm.on_syscall(Syscall::TaintWithLabel { label: taint });
    assert!(matches!(vm.on_syscall(Syscall::Response { payload: "one".to_string() }), Step::Finish { .. }));
    assert_eq!(vm.phase(), Phase::Finished);
    vm.begin_request();
    assert_eq!(vm.phase(), Phase::Idle);
    assert_eq!(vm.id(), 4);
    assert_eq!(secrecy_sets(&vm), vec![vec!["alice".to_string()]]);
    match vm.on_syscall(Syscall::Response { payload: "two".to_string() }) {
        Step::Finish { payload } => assert_eq!(payload, "two"),
        _ => panic!("expected the session to finish"),
    }
}
