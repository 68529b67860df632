use solar_telemetry::solar_data::cell::AvailableCells;
use solar_telemetry::solar_data::cell::AvailableCellsError;
use solar_telemetry::solar_data::controllers::AvailableControllers;
use solar_telemetry::solar_data::controllers::AvailableControllersError;
use solar_telemetry::types::fixed_size_queue::FixedSizeQueue;

#[test]
fn cells_are_kept_in_order_and_once() {
    let mut cells = AvailableCells::default();
    assert!(cells.get_cells().is_empty());
    assert_eq!(cells.insert(5), Ok(()));
    assert_eq!(cells.insert(1), Ok(()));
    assert_eq!(cells.insert(3), Ok(()));
    assert_eq!(cells.insert(5), Err(AvailableCellsError::CellAlreadyExists));
    assert_eq!(cells.insert(1), Err(AvailableCellsError::CellAlreadyExists));
    assert_eq!(cells.get_cells(), &vec![1, 3, 5]);
    assert!(cells.contains(3));
    assert!(!cells.contains(4));
    assert_eq!(cells.insert(0), Ok(()));
    assert_eq!(cells.insert(65_535), Ok(()));
    assert_eq!(cells.get_cells(), &vec![0, 1, 3, 5, 65_535]);
}

#[test]
fn cells_combine_without_repeats() {
    let mut a = AvailableCells::default();
    for id in [1, 3, 5] {
        a.insert(id).unwrap();
    }
    let mut b = AvailableCells::default();
    for id in [4, 3, 2] {
        b.insert(id).unwrap();
    }
    a.combine(&b);
    assert_eq!(a.get_cells(), &vec![1, 2, 3, 4, 5]);
    assert_eq!(b.get_cells(), &vec![2, 3, 4]);
    a.combine(&b);
    assert_eq!(a.get_cells(), &vec![1, 2, 3, 4, 5]);
    let c = a.clone();
    assert!(c == a);
    assert!(c != b);
    assert!(AvailableCells::default() == AvailableCells::default());
}

#[test]
fn controllers_are_kept_in_order_and_once() {
    let mut controllers = AvailableControllers::default();
    assert_eq!(controllers.insert(102), Ok(()));
    assert_eq!(controllers.insert(101), Ok(()));
    assert_eq!(
        controllers.insert(102),
        Err(AvailableControllersError::ControllerAlreadyExists)
    );
    assert_eq!(controllers.get_controllers(), &vec![101, 102]);
    assert!(controllers.contains(101));
    assert!(!controllers.contains(100));
}

#[test]
fn controllers_combine_without_repeats() {
    let mut a = AvailableControllers::default();
    a.insert(7).unwrap();
    let mut b = AvailableControllers::default();
    b.insert(7).unwrap();
    b.insert(6).unwrap();
    a.combine(&b);
    assert_eq!(a.get_controllers(), &vec![6, 7]);
    assert!(a == b);
    assert!(a.clone() == a);
}

#[test]
fn registry_errors_have_a_text() {
    assert_eq!(
        AvailableCellsError::CellAlreadyExists.message(),
        "Tried to insert cell id that already existed."
    );
    assert_eq!(
        AvailableControllersError::ControllerAlreadyExists.message(),
        "Tried to insert controller id that already existed."
    );
}

#[test]
fn queue_drops_its_oldest_element_when_full() {
    let mut queue: FixedSizeQueue<u32> = FixedSizeQueue::new(3);
    assert_eq!(queue.len(), 0);
    assert_eq!(queue.push(1), None);
    assert_eq!(queue.push(2), None);
    assert_eq!(queue.push(3), None);
    assert_eq!(queue.len(), 3);
    assert_eq!(queue.push(4), Some(1));
    assert_eq!(queue.push(5), Some(2));
    assert_eq!(queue.len(), 3);
    assert_eq!(queue.iter().copied().collect::<Vec<u32>>(), vec![3, 4, 5]);
}

#[test]
fn queue_for_no_element_holds_one() {
    let mut queue: FixedSizeQueue<&str> = FixedSizeQueue::new(0);
    assert_eq!(queue.push("a"), None);
    assert_eq!(queue.push("b"), Some("a"));
    assert_eq!(queue.len(), 1);
}

#[test]
fn queue_retains_what_is_asked_for() {
    let mut queue: FixedSizeQueue<u32> = FixedSizeQueue::new(10);
    for n in 1..=8 {
        queue.push(n);
    }
    queue.retain(|n| n % 2 == 0);
    assert_eq!(queue.iter().copied().collect::<Vec<u32>>(), vec![2, 4, 6, 8]);
    queue.retain(|n| *n > 4);
    assert_eq!(queue.iter().copied().collect::<Vec<u32>>(), vec![6, 8]);
    queue.retain(|_| false);
    assert_eq!(queue.len(), 0);
    queue.retain(|_| true);
    assert_eq!(queue.len(), 0);
}
