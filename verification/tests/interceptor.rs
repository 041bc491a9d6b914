//! Tests of the frame interceptors.

use kalico_host_rt::host_io::interceptor::{InterceptorId, InterceptorTable};
use kalico_host_rt::transport::{MessageParams, MessageValue};

/// A table with its callbacks.
struct Callbacks {
    table: InterceptorTable,
    callbacks: Vec<(InterceptorId, Box<dyn FnMut(&MessageParams) -> u32>)>,
    last: Option<u32>,
    count: u32,
}

impl Callbacks {
    fn new() -> Self {
        Callbacks { table: InterceptorTable::new(), callbacks: Vec::new(), last: None, count: 0 }
    }

    fn register(
        &mut self,
        name: &str,
        oid: Option<u32>,
        f: Box<dyn FnMut(&MessageParams) -> u32>,
    ) -> InterceptorId {
        let id = self.table.register(name.to_string(), oid);
        self.callbacks.push((id, f));
        id
    }

    fn dispatch(&mut self, name: &str, oid: Option<u32>, params: &MessageParams) {
        for id in self.table.dispatch(name, oid) {
            for (i, f) in self.callbacks.iter_mut() {
                if *i == id {
                    self.last = Some(f(params));
                    self.count += 1;
                }
            }
        }
    }
}

#[test]
fn dispatch_fires_matching_callback() {
    let mut table = Callbacks::new();
    table.register("trsync_state", Some(0), Box::new(|_| 0));

    let mut params = MessageParams::new();
    params.insert("oid", MessageValue::U32(0));
    params.insert("can_trigger", MessageValue::U32(0));

    table.dispatch("trsync_state", Some(0), &params);
    assert_eq!(table.count, 1);
}

#[test]
fn dispatch_ignores_wrong_oid() {
    let mut table = Callbacks::new();
    table.register("trsync_state", Some(0), Box::new(|_| 0));
    let params = MessageParams::new();
    table.dispatch("trsync_state", Some(1), &params);
    assert_eq!(table.count, 0);
}

#[test]
fn dispatch_ignores_wrong_name() {
    let mut table = Callbacks::new();
    table.register("trsync_state", Some(0), Box::new(|_| 0));
    let params = MessageParams::new();
    table.dispatch("analog_in_state", Some(0), &params);
    assert_eq!(table.count, 0);
}

#[test]
fn unregister_removes_callback() {
    let mut table = Callbacks::new();
    let id = table.register("trsync_state", Some(0), Box::new(|_| 0));

    let params = MessageParams::new();
    table.dispatch("trsync_state", Some(0), &params);
    assert_eq!(table.count, 1);

    table.table.unregister(id);
    table.dispatch("trsync_state", Some(0), &params);
    assert_eq!(table.count, 1, "should not fire after unregister");
    assert_eq!(table.table.entry_count(), 0);
}

#[test]
fn callback_receives_params() {
    let mut table = Callbacks::new();
    table.last = Some(999);
    table.register(
        "trsync_state",
        Some(0),
        Box::new(|params| params.get_u32("can_trigger")),
    );

    let mut params = MessageParams::new();
    params.insert("oid", MessageValue::U32(0));
    params.insert("can_trigger", MessageValue::U32(0));
    params.insert("trigger_reason", MessageValue::U32(1));

    table.dispatch("trsync_state", Some(0), &params);
    assert_eq!(table.last, Some(0));
}

#[test]
fn interceptors_fire_in_the_order_of_registration() {
    let mut table = InterceptorTable::new();
    let a = table.register("x".to_string(), None);
    let _ = table.register("y".to_string(), None);
    let b = table.register("x".to_string(), Some(4));
    let c = table.register("x".to_string(), None);
    assert_eq!(table.entry_count(), 4);
    assert_eq!(table.dispatch("x", None), vec![a, c]);
    assert_eq!(table.dispatch("x", Some(4)), vec![b]);
    assert!(table.dispatch("x", Some(5)).is_empty());
}

#[test]
fn unregistering_takes_one_and_leaves_the_others() {
    let mut t = InterceptorTable::new();
    let a = t.register("state".to_string(), Some(1));
    let b = t.register("state".to_string(), None);
    let c = t.register("state".to_string(), Some(1));
    assert!(a != b && b != c && a != c);
    t.unregister(b);
    assert_eq!(t.entry_count(), 2);
    assert_eq!(t.dispatch("state", Some(1)), vec![a, c]);
    t.unregister(b);
    assert_eq!(t.entry_count(), 2);
    let d = t.register("state".to_string(), Some(1));
    assert!(d != a && d != b && d != c, "a number is not given twice");
    assert_eq!(t.dispatch("state", Some(1)), vec![a, c, d]);
}
