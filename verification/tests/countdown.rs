use std::ops::ControlFlow;
use try_fold::countdown::FACTOR;
use try_fold::Break;
use try_fold::Continue;
use try_fold::Countdown;
use try_fold::TryFold;

#[test]
fn counts_down_from_four() {
    let mut c = Countdown(4);

    assert_eq!(c.next(), Some(173u8.wrapping_mul(4)));
    assert_eq!(c.next(), Some(173u8.wrapping_mul(3)));

    assert_eq!(c.size_hint(), (2, Some(2)));

    assert_eq!(
        c.fold(1u32, |acc, item| acc * u32::from(item)),
        173u8.wrapping_mul(2) as u32 * 173
    );
}

#[test]
fn items_are_counts_times_factor_modulo_256() {
    assert_eq!(FACTOR, 173);
    let mut c = Countdown(4);
    assert_eq!(c.next(), Some(180));
    assert_eq!(c.next(), Some(7));
    assert_eq!(c.next(), Some(90));
    assert_eq!(c.next(), Some(173));
    assert_eq!(c.next(), None);
    assert_eq!(c.0, 0);
}

#[test]
fn product_of_the_last_two_is_exact() {
    let c = Countdown(2);
    assert_eq!(c.fold(1u32, |acc, item| acc * u32::from(item)), 15570);
}

#[test]
fn empty_countdown_yields_nothing() {
    let mut c = Countdown(0);
    assert_eq!(c.size_hint(), (0, Some(0)));
    assert_eq!(c.next(), None);
    assert_eq!(c.next(), None);
    assert_eq!(c.size_hint(), (0, Some(0)));
}

#[test]
fn fold_of_nothing_is_the_initial_value() {
    assert_eq!(Countdown(0).fold(41u32, |acc, item| acc + u32::from(item)), 41);
}

#[test]
fn try_fold_of_nothing_wraps_the_initial_value() {
    let mut calls = 0;
    let out: Break<u8> = Countdown(0).try_fold(9u8, |_acc: u8, item: u8| {
        calls += 1;
        Break(item)
    });
    assert_eq!(out.0, 9);
    assert_eq!(calls, 0);

    let out: Option<u8> = Countdown(0).try_fold(9u8, |_acc: u8, _item: u8| None);
    assert_eq!(out, Some(9));
}

#[test]
fn longest_countdown_has_255_items() {
    let mut c = Countdown(255);
    assert_eq!(c.size_hint(), (255, Some(255)));
    assert_eq!(c.next(), Some(255u8.wrapping_mul(173)));
    assert_eq!(c.next(), Some(254u8.wrapping_mul(173)));
    assert_eq!(c.size_hint(), (253, Some(253)));
    assert_eq!(c.fold(0usize, |acc, _item| acc + 1), 253);
}

#[test]
fn try_fold_with_continue_runs_to_the_end() {
    let mut c = Countdown(4);
    let out: Continue<u32> =
        c.try_fold(0u32, |acc: u32, item: u8| Continue(acc + u32::from(item)));
    assert_eq!(out.0, 180 + 7 + 90 + 173);
    assert_eq!(c.size_hint(), (0, Some(0)));
    assert_eq!(c.next(), None);
}

#[test]
fn try_fold_with_option_stops_on_none() {
    let mut c = Countdown(4);
    let out: Option<u8> = c.try_fold(0u8, |acc: u8, item: u8| acc.checked_add(item));
    assert_eq!(out, None);
    assert_eq!(c.size_hint(), (1, Some(1)));
    assert_eq!(c.next(), Some(173));

    let mut c = Countdown(4);
    let out: Option<u32> =
        c.try_fold(0u32, |acc: u32, item: u8| acc.checked_add(u32::from(item)));
    assert_eq!(out, Some(450));
    assert_eq!(c.size_hint(), (0, Some(0)));
}

#[test]
fn try_fold_with_result_stops_on_err() {
    let mut c = Countdown(4);
    let out: Result<u32, u8> = c.try_fold(0u32, |acc: u32, item: u8| {
        if item < 10 {
            Err(item)
        } else {
            Ok(acc + u32::from(item))
        }
    });
    assert_eq!(out, Err(7));
    assert_eq!(c.size_hint(), (2, Some(2)));
    assert_eq!(c.next(), Some(90));
}

#[test]
fn try_fold_with_control_flow_stops_on_break() {
    let mut c = Countdown(4);
    let out: ControlFlow<u32, u32> = c.try_fold(0u32, |acc: u32, item: u8| {
        let sum = acc + u32::from(item);
        if sum > 200 {
            ControlFlow::Break(sum)
        } else {
            ControlFlow::Continue(sum)
        }
    });
    assert_eq!(out, ControlFlow::Break(277));
    assert_eq!(c.size_hint(), (1, Some(1)));

    let mut c = Countdown(2);
    let out: ControlFlow<u32, u32> = c.try_fold(0u32, |acc: u32, item: u8| {
        ControlFlow::Continue(acc + u32::from(item))
    });
    assert_eq!(out, ControlFlow::Continue(263));
}
