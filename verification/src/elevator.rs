//! Events a lift controller reacts to, and their constructors.
use vstd::prelude::*;

verus! {

/// A direction of travel.
#[derive(Debug)]
pub enum Direction {
    Up,
    Down,
}

/// An event the lift controller must react to.
#[derive(Debug)]
pub enum Event {
    CarDoorsClosed,
    CarDoorsOpened,
    LobbyButtonPressed { floor: i32, direction: Direction },
    CarArrived(i32),
    CarButtonPressed(i32),
}

/// The car arrived at `floor`.
pub fn car_arrived(floor: i32) -> (e: Event)
    ensures
        e == Event::CarArrived(floor),
{
    Event::CarArrived(floor)
}

/// The car's doors opened.
pub fn car_door_opened() -> (e: Event)
    ensures
        e == Event::CarDoorsOpened,
{
    Event::CarDoorsOpened
}

/// The car's doors closed.
pub fn car_door_closed() -> (e: Event)
    ensures
        e == Event::CarDoorsClosed,
{
    Event::CarDoorsClosed
}

/// A call button on `floor` was pressed, asking to travel in `dir`.
pub fn lobby_call_button_pressed(floor: i32, dir: Direction) -> (e: Event)
    ensures
        e == (Event::LobbyButtonPressed { floor, direction: dir }),
{
    Event::LobbyButtonPressed { floor, direction: dir }
}

/// A floor button inside the car was pressed.
pub fn car_floor_button_pressed(floor: i32) -> (e: Event)
    ensures
        e == Event::CarButtonPressed(floor),
{
    Event::CarButtonPressed(floor)
}

} // verus!
