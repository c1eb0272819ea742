use std::ops::ControlFlow;
use try_fold::Break;
use try_fold::Continue;
use try_fold::Outcome;

#[test]
fn break_carries_its_value() {
    assert_eq!(Break::from_output(5u8).0, 5);
    assert_eq!(Break::from_residual(6u8).0, 6);
    assert_eq!(Break("stop").0, "stop");
}

#[test]
fn break_always_stops() {
    assert_eq!(Break(7u8).branch(), ControlFlow::Break(7));
    assert_eq!(Break::from_output(8u8).branch(), ControlFlow::Break(8));
    assert_eq!(Break::from_residual(9u8).branch(), ControlFlow::Break(9));
}

#[test]
fn continue_carries_its_value() {
    assert_eq!(Continue::from_output(5u8).0, 5);
    assert_eq!(Continue::from_residual(6u8).0, 6);
    assert_eq!(Continue("go").0, "go");
}

#[test]
fn continue_never_stops() {
    assert_eq!(Continue(7u8).branch(), ControlFlow::Continue(7));
    assert_eq!(Continue::from_output(8u8).branch(), ControlFlow::Continue(8));
    assert_eq!(Continue::from_residual(9u8).branch(), ControlFlow::Continue(9));
}

#[test]
fn option_stops_on_none() {
    assert_eq!(<Option<u8> as Outcome>::from_output(3), Some(3));
    assert_eq!(<Option<u8> as Outcome>::from_residual(()), None);
    assert_eq!(Some(4u8).branch(), ControlFlow::Continue(4));
    assert_eq!(None::<u8>.branch(), ControlFlow::Break(()));
}

#[test]
fn result_stops_on_err() {
    assert_eq!(<Result<u8, char> as Outcome>::from_output(3), Ok(3));
    assert_eq!(<Result<u8, char> as Outcome>::from_residual('e'), Err('e'));
    assert_eq!(Ok::<u8, char>(4).branch(), ControlFlow::Continue(4));
    assert_eq!(Err::<u8, char>('x').branch(), ControlFlow::Break('x'));
}

#[test]
fn control_flow_is_its_own_decision() {
    assert_eq!(
        <ControlFlow<char, u8> as Outcome>::from_output(3),
        ControlFlow::Continue(3)
    );
    assert_eq!(
        <ControlFlow<char, u8> as Outcome>::from_residual('r'),
        ControlFlow::Break('r')
    );
    assert_eq!(
        Outcome::branch(ControlFlow::<char, u8>::Continue(4)),
        ControlFlow::Continue(4)
    );
    assert_eq!(
        Outcome::branch(ControlFlow::<char, u8>::Break('b')),
        ControlFlow::Break('b')
    );
}
