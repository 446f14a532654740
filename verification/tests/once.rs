use std::sync::{Arc, Mutex};
use top_issues::once::c;

#[test]
fn work_is_done_when_c_returns() {
    let shared = Arc::new(Mutex::new(vec![1, 2, 3]));
    c({
        let shared = shared.clone();
        move || {
            shared.lock().unwrap().push(4);
        }
    });
    c({
        let shared = shared.clone();
        move || {
            shared.lock().unwrap().push(5);
        }
    });
    assert_eq!(*shared.lock().unwrap(), vec![1, 2, 3, 4, 5]);
}

#[test]
fn work_that_owns_its_data_is_consumed() {
    let done = Arc::new(Mutex::new(String::new()));
    let owned = String::from("moved in");
    let sink = done.clone();
    c(move || {
        *sink.lock().unwrap() = owned;
    });
    assert_eq!(*done.lock().unwrap(), "moved in");
}
