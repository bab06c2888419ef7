use static_arc::StaticArc;
use std::cell::Cell;
use std::rc::Rc;

struct Tally {
    drops: Rc<Cell<u32>>,
}

impl Drop for Tally {
    fn drop(&mut self) {
        self.drops.set(self.drops.get() + 1);
    }
}

fn tally() -> (Tally, Rc<Cell<u32>>) {
    let drops = Rc::new(Cell::new(0));
    (Tally { drops: Rc::clone(&drops) }, drops)
}

#[test]
fn the_last_drop_destructs_the_value_once() {
    let (value, drops) = tally();
    let [a, b, c] = StaticArc::new(value).unwrap();
    drop(a);
    assert_eq!(drops.get(), 0);
    drop(c);
    assert_eq!(drops.get(), 0);
    drop(b);
    assert_eq!(drops.get(), 1);
}

#[test]
fn a_batch_going_out_of_scope_destructs_the_value_once() {
    let (value, drops) = tally();
    {
        let _batch: [StaticArc<Tally>; 6] = StaticArc::new(value).unwrap();
        assert_eq!(drops.get(), 0);
    }
    assert_eq!(drops.get(), 1);
}

#[test]
fn reclaim_does_not_destruct_the_value() {
    let (value, drops) = tally();
    let [a, b] = StaticArc::new(value).unwrap();
    drop(a);
    let back = match b.try_into_inner_recover() {
        Ok(back) => back,
        Err(_) => panic!("the only handle left was refused"),
    };
    assert_eq!(drops.get(), 0);
    drop(back);
    assert_eq!(drops.get(), 1);
}

#[test]
fn a_refused_reclaim_destructs_nothing() {
    let (value, drops) = tally();
    let [a, b] = StaticArc::new(value).unwrap();
    let a = match a.try_into_inner_recover() {
        Ok(_) => panic!("reclaimed while shared"),
        Err(same) => same,
    };
    assert_eq!(drops.get(), 0);
    assert_eq!(a.live(), 2);
    drop(a);
    assert_eq!(drops.get(), 0);
    drop(b);
    assert_eq!(drops.get(), 1);
}

#[test]
fn try_into_inner_while_shared_releases_without_destructing() {
    let (value, drops) = tally();
    let [a, b] = StaticArc::new(value).unwrap();
    assert!(a.try_into_inner().is_none());
    assert_eq!(drops.get(), 0);
    assert_eq!(b.live(), 1);
    let back = b.try_into_inner();
    assert!(back.is_some());
    assert_eq!(drops.get(), 0);
    drop(back);
    assert_eq!(drops.get(), 1);
}

#[test]
fn a_value_that_was_never_shared_is_not_destructed() {
    let (value, drops) = tally();
    let batch: Result<[StaticArc<Tally>; 0], Tally> = StaticArc::new_recover(value);
    assert_eq!(drops.get(), 0);
    let back = match batch {
        Ok(_) => panic!("a cell without owners was built"),
        Err(back) => back,
    };
    assert_eq!(drops.get(), 0);
    drop(back);
    assert_eq!(drops.get(), 1);
}

#[test]
fn new_for_no_owner_drops_the_value() {
    let (value, drops) = tally();
    let batch: Option<[StaticArc<Tally>; 0]> = StaticArc::new(value);
    assert!(batch.is_none());
    assert_eq!(drops.get(), 1);
}

#[test]
fn many_cycles_finalize_every_value_once() {
    let mut reclaimed: u32 = 0;
    let mut destructed_in_place: u32 = 0;
    for round in 0..2000u32 {
        let (value, drops) = tally();
        let [a, b, c, d] = StaticArc::new(value).unwrap();
        let mut handles = vec![a, b, c, d];
        handles.rotate_left((round % 4) as usize);
        let keeper = handles.pop().unwrap();
        while let Some(handle) = handles.pop() {
            assert_eq!(keeper.live(), handles.len() + 2);
            drop(handle);
        }
        assert_eq!(keeper.live(), 1);
        assert_eq!(drops.get(), 0);
        if round % 2 == 0 {
            let back = keeper.try_into_inner();
            assert!(back.is_some());
            assert_eq!(drops.get(), 0);
            reclaimed += 1;
        } else {
            drop(keeper);
            destructed_in_place += 1;
        }
        assert_eq!(drops.get(), 1);
    }
    assert_eq!(reclaimed, 1000);
    assert_eq!(destructed_in_place, 1000);
}
