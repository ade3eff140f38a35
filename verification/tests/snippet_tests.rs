use std::cell::Cell;

use protowire::collatz::collatz_length;
use protowire::counter::Counter;
use protowire::elevator::{
    car_arrived, car_door_closed, car_door_opened, car_floor_button_pressed,
    lobby_call_button_pressed, Direction, Event,
};
use protowire::logger::{Filter, Logger};
use protowire::matrix::transpose;
use protowire::rot::rot_apply;

#[test]
fn joke() {
    let out = rot_apply("Gb trg gb gur bgure fvqr!".as_bytes(), 13);
    let result = String::from_utf8(out).unwrap();
    assert_eq!(&result, "To get to the other side!");
}

#[test]
fn binary() {
    let input: Vec<u8> = (0..=255u8).collect();
    let buf = rot_apply(&input, 13);
    assert_eq!(buf.len(), 256);
    for i in 0..=255 {
        if input[i] != buf[i] {
            assert!(input[i].is_ascii_alphabetic());
            assert!(buf[i].is_ascii_alphabetic());
        }
    }
}

#[test]
fn test_collatz_length() {
    assert_eq!(collatz_length(11), 15);
}

#[test]
fn collatz_length_of_one() {
    assert_eq!(collatz_length(1), 1);
    assert_eq!(collatz_length(2), 2);
    assert_eq!(collatz_length(27), 112);
}

#[test]
fn test_transpose() {
    let matrix = [
        [101, 102, 103], //
        [201, 202, 203],
        [301, 302, 303],
    ];
    let transposed = transpose(matrix);
    assert_eq!(
        transposed,
        [
            [101, 201, 301], //
            [102, 202, 302],
            [103, 203, 303],
        ]
    );
}

#[test]
fn counter_counts_each_value() {
    let mut ctr = Counter::new();
    ctr.count(13);
    ctr.count(14);
    ctr.count(16);
    ctr.count(14);
    ctr.count(14);
    ctr.count(11);
    assert_eq!(ctr.times_seen(14), 3);
    assert_eq!(ctr.times_seen(13), 1);
    assert_eq!(ctr.times_seen(10), 0);

    let mut strctr = Counter::new();
    strctr.count("apple");
    strctr.count("orange");
    strctr.count("apple");
    assert_eq!(strctr.times_seen("apple"), 2);
}

#[test]
fn elevator_events_carry_their_data() {
    assert!(matches!(car_arrived(3), Event::CarArrived(3)));
    assert!(matches!(car_door_opened(), Event::CarDoorsOpened));
    assert!(matches!(car_door_closed(), Event::CarDoorsClosed));
    assert!(matches!(car_floor_button_pressed(5), Event::CarButtonPressed(5)));
    assert!(matches!(
        lobby_call_button_pressed(0, Direction::Up),
        Event::LobbyButtonPressed { floor: 0, direction: Direction::Up }
    ));
}

struct CountingLogger {
    hits: Cell<usize>,
}

impl Logger for &CountingLogger {
    fn log(&self, _verbosity: u8, _message: &str) {
        self.hits.set(self.hits.get() + 1);
    }
}

#[test]
fn filter_passes_only_approved_messages() {
    let base = CountingLogger { hits: Cell::new(0) };
    let filtered = Filter::new(&base, |_verbosity: u8, msg: &str| msg.contains("yikes"));
    filtered.log(5, "FYI");
    filtered.log(1, "yikes, something went wrong");
    filtered.log(2, "uhoh");
    assert_eq!(base.hits.get(), 1);
}
