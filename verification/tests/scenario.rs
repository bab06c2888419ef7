use static_arc::StaticArc;
use std::collections::HashMap;
use std::sync::Mutex;

struct SharedData {
    data: Mutex<HashMap<String, i32>>,
}

fn recover(handle: StaticArc<SharedData>) -> HashMap<String, i32> {
    let mut waiting = Some(handle);
    loop {
        match waiting.take().unwrap().try_into_inner_recover() {
            Ok(shared) => return shared.data.into_inner().unwrap(),
            Err(same) => waiting = Some(same),
        }
    }
}

#[test]
fn a_map_filled_by_one_owner_is_reclaimed_by_the_other() {
    let [worker, keeper] = StaticArc::new(SharedData { data: Mutex::new(HashMap::new()) }).unwrap();
    {
        let mut data = worker.data.lock().unwrap();
        data.insert("x".into(), 1);
        data.insert("y".into(), 2);
        data.insert("z".into(), 3);
    }
    drop(worker);
    let data = recover(keeper);
    let expected: HashMap<String, i32> =
        [("x".to_string(), 1), ("y".to_string(), 2), ("z".to_string(), 3)].into_iter().collect();
    assert_eq!(data, expected);
}

#[test]
fn the_keeper_is_refused_until_the_worker_is_done() {
    let [worker, keeper] = StaticArc::new(SharedData { data: Mutex::new(HashMap::new()) }).unwrap();
    worker.data.lock().unwrap().insert("x".into(), 1);
    let keeper = match keeper.try_into_inner_recover() {
        Ok(_) => panic!("reclaimed while the worker held a handle"),
        Err(same) => same,
    };
    worker.data.lock().unwrap().insert("y".into(), 2);
    drop(worker);
    let data = recover(keeper);
    assert_eq!(data.len(), 2);
    assert_eq!(data["x"], 1);
    assert_eq!(data["y"], 2);
}
