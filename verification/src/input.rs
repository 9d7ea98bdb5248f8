//! Input injection: the fake X11 events that keys, buttons and motion become.

use crate::double::{
    double_product, double_quotient, double_sum, nearest_double, numbers_round_to_themselves,
    rounding_keeps_upper_bounds, Double,
};
use crate::float_bits::{
    exceeds, exponent_bits, is_bounded, is_finite, is_nan, is_negative, means_nothing, scaled_size,
    smaller_numbers_have_smaller_bits, MAX_INPUT_DELTA,
};
use crate::number::{
    bits_of_whole, negated_bits, number_negated, number_of, number_share, number_sum,
    share_of_bits, sum_of_bits, whole_part_of, whole_part_of_bits, Number,
};
use crate::text::{append_decimal, decimal};
use vstd::arithmetic::power2::{lemma2_to64_rest, lemma_pow2_adds, lemma_pow2_pos, pow2};
use vstd::prelude::*;

verus! {

/// The X11 event codes of fake input.
pub const KEY_PRESS_EVENT: u8 = 2;

pub const KEY_RELEASE_EVENT: u8 = 3;

pub const BUTTON_PRESS_EVENT: u8 = 4;

pub const BUTTON_RELEASE_EVENT: u8 = 5;

pub const MOTION_NOTIFY_EVENT: u8 = 6;

/// The error where the X server has no XTEST.
pub const NO_XTEST_ERROR: &'static str = "XTEST extension not available";

/// What an injector is asked to inject. Coordinates and deltas are 64-bit
/// floating-point numbers, by their bits.
pub enum Injection {
    Key { code: u16, pressed: bool },
    MoveAbs { x: u64, y: u64 },
    MoveRel { dx: u64, dy: u64 },
    Button { button: u8, pressed: bool },
    Scroll { dx: u64, dy: u64 },
}

/// Where input goes, as the input dispatcher sees it. Coordinates and deltas are
/// 64-bit floating-point numbers, by their bits.
pub trait Inject: Send {
    /// Injects a key. `code` is a Linux evdev keycode.
    fn inject_key(&mut self, code: u16, pressed: bool) -> Result<(), String>;

    /// Moves the pointer to a place between 0 and 1 on either axis.
    fn inject_mouse_move_abs(&mut self, x: u64, y: u64) -> Result<(), String>;

    /// Moves the pointer by some pixels.
    fn inject_mouse_move_rel(&mut self, dx: u64, dy: u64) -> Result<(), String>;

    /// Presses or releases a mouse button. `button` is the browser's index:
    /// 0 left, 1 middle, 2 right.
    fn inject_button(&mut self, button: u8, pressed: bool) -> Result<(), String>;

    /// Scrolls by some pixels.
    fn inject_scroll(&mut self, dx: u64, dy: u64) -> Result<(), String>;
}

/// A fake input event, as XTEST takes it.
#[derive(Debug, Clone, Copy, PartialEq, Eq, Structural)]
pub struct FakeInput {
    /// The X11 event code.
    pub event_type: u8,
    /// The keycode, the button, or whether motion is relative.
    pub detail: u8,
    /// The root window, or 0.
    pub root: u32,
    pub x: i16,
    pub y: i16,
}

/// The X11 keycode of an evdev keycode: eight more, in one byte.
pub open spec fn x11_keycode(evdev: u16) -> int {
    (evdev + 8) % 256
}

/// The X11 button of a browser's button, where there is one.
pub open spec fn x11_button(button: u8) -> Option<u8> {
    match button {
        0 => Some(1),
        1 => Some(2),
        2 => Some(3),
        _ => None,
    }
}

/// The error for a button that is not known.
pub open spec fn unknown_button(button: u8) -> Seq<char> {
    "Unknown mouse button: "@ + decimal(button as nat)
}

/// How far a number is from zero.
pub open spec fn magnitude(n: int) -> nat {
    if n < 0 {
        (-n) as nat
    } else {
        n as nat
    }
}

/// The button that scrolls, and how often it clicks: `up` for positive notches,
/// `down` for negative ones.
pub open spec fn scroll_clicks(notches: int, up: u8, down: u8) -> Option<(u8, nat)> {
    if notches > 0 {
        Some((up, magnitude(notches)))
    } else if notches < 0 {
        Some((down, magnitude(notches)))
    } else {
        None
    }
}

/// A press or release of a button.
pub open spec fn button_event(root: u32, button: u8, pressed: bool) -> FakeInput {
    FakeInput {
        event_type: if pressed {
            BUTTON_PRESS_EVENT
        } else {
            BUTTON_RELEASE_EVENT
        },
        detail: button,
        root,
        x: 0,
        y: 0,
    }
}

/// Clicks of a button: each a press and a release.
pub open spec fn clicks(root: u32, button: u8, count: nat) -> Seq<FakeInput>
    decreases count,
{
    if count == 0 {
        Seq::empty()
    } else {
        clicks(root, button, (count - 1) as nat).push(button_event(root, button, true)).push(
            button_event(root, button, false),
        )
    }
}

/// The clicks that a scroll takes along one axis.
pub open spec fn scroll_events(root: u32, click: Option<(u8, nat)>) -> Seq<FakeInput> {
    match click {
        Some((button, count)) => clicks(root, button, count),
        None => Seq::empty(),
    }
}

// ---------------------------------------------------------------------------
// Motion
// ---------------------------------------------------------------------------

/// The bits of 1.
const ONE_BITS: u64 = 0x3FF0_0000_0000_0000;

/// The bits of 32768.
const PIXEL_LIMIT_BITS: u64 = 0x40E0_0000_0000_0000;

/// A coordinate held between 0 and 1; 0 where there is none. It is given times
/// two to the power 1074.
pub open spec fn held_coordinate(bits: u64) -> nat {
    if is_nan(bits) || is_negative(bits) {
        0
    } else if scaled_size(bits) > pow2(1074) {
        pow2(1074)
    } else {
        scaled_size(bits)
    }
}

/// The pixel at a coordinate on an axis of the given size: the whole part of their
/// product in floating-point numbers, as far as 16 bits reach.
pub open spec fn pixel_at(bits: u64, size: u32) -> int {
    let product = double_product(held_coordinate(bits), size as nat * pow2(1074));
    let pixel = product / pow2(1074);
    if pixel > i16::MAX {
        i16::MAX as int
    } else {
        pixel as int
    }
}

/// The bits of 1 and of 32768 mean what they should.
proof fn lemma_pixel_bits()
    ensures
        scaled_size(ONE_BITS) == pow2(1074),
        scaled_size(PIXEL_LIMIT_BITS) == 32768 * pow2(1074),
{
    lemma2_to64_rest();
    vstd::arithmetic::power2::lemma2_to64();
    assert(exponent_bits(ONE_BITS) == 0x3FF);
    lemma_pow2_adds(52, 1022);
    assert(exponent_bits(PIXEL_LIMIT_BITS) == 0x40E);
    lemma_pow2_adds(52, 1037);
    lemma_pow2_adds(15, 1074);
}

/// The pixel at a coordinate on an axis of the given size.
fn pixel(bits: u64, size: u32) -> (r: i16)
    ensures
        r == pixel_at(bits, size),
{
    proof {
        lemma_pixel_bits();
        lemma2_to64_rest();
        lemma_pow2_pos(1074);
        if scaled_size(bits) <= scaled_size(ONE_BITS) {
            smaller_numbers_have_smaller_bits(bits, ONE_BITS);
            assert(exponent_bits(ONE_BITS) == 0x3FF);
        }
    }
    let coordinate: Double = if means_nothing(bits) || bits >= 0x8000_0000_0000_0000 {
        Double::whole(0)
    } else if exceeds(bits, ONE_BITS) {
        Double::whole(1)
    } else {
        Double::from_bits(bits)
    };
    assert(coordinate.scaled() == held_coordinate(bits));
    let product: Double = coordinate.times(Double::whole(size));
    proof {
        let one = pow2(1074);
        let held = held_coordinate(bits);
        assert(held * (size as nat * one) <= size as nat * one * one) by (nonlinear_arith)
            requires
                held <= one,
        ;
        rounding_keeps_upper_bounds(held * (size as nat * one), one, size as nat, 1074);
        lemma_pow2_adds(64, 1074);
        assert(size as nat * one < 0x1_0000_0000_0000_0000 * one) by (nonlinear_arith)
            requires
                size < 0x1_0000_0000_0000_0000,
                one > 0,
        ;
    }
    let whole: u64 = product.whole_part();
    if whole > 32767 {
        32767
    } else {
        whole as i16
    }
}

/// The pixel at a place between 0 and 1 on either axis. What lies outside is held
/// to the bounds.
pub fn mouse_abs_to_pixels(x: u64, y: u64, width: u32, height: u32) -> (r: (i16, i16))
    ensures
        r.0 == pixel_at(x, width),
        r.1 == pixel_at(y, height),
{
    (pixel(x, width), pixel(y, height))
}

/// A pixel lies on the screen, or just behind its last one.
pub proof fn pixels_stay_on_the_screen(bits: u64, size: u32)
    ensures
        0 <= pixel_at(bits, size) <= size,
        pixel_at(bits, size) <= i16::MAX,
{
    let one = pow2(1074);
    let held = held_coordinate(bits);
    let product = double_product(held, size as nat * one);
    lemma_pow2_pos(1074);
    assert(held * (size as nat * one) <= size as nat * one * one) by (nonlinear_arith)
        requires
            held <= one,
    ;
    rounding_keeps_upper_bounds(held * (size as nat * one), one, size as nat, 1074);
    assert(product / one <= size) by (nonlinear_arith)
        requires
            product <= size as nat * one,
            one > 0,
    ;
}

/// A delta in whole pixels: to the nearest, the larger one where two are as near,
/// as far as 16 bits reach; 0 where there is none.
pub open spec fn pixel_step(bits: u64) -> int {
    let size = (2 * scaled_size(bits) + pow2(1074)) / pow2(1075);
    if is_nan(bits) {
        0
    } else if is_negative(bits) {
        if size > 32768 {
            -32768
        } else {
            -(size as int)
        }
    } else if size > 32767 {
        32767
    } else {
        size as int
    }
}

/// A delta in whole pixels.
fn whole_pixels(bits: u64) -> (r: i16)
    ensures
        r == pixel_step(bits),
{
    if means_nothing(bits) {
        return 0;
    }
    let negative: bool = bits >= 0x8000_0000_0000_0000;
    proof {
        lemma_pixel_bits();
        lemma_pow2_pos(1074);
        vstd::arithmetic::power2::lemma2_to64();
        lemma_pow2_adds(1, 1074);
        lemma_large_step(scaled_size(bits));
    }
    if exceeds(bits, PIXEL_LIMIT_BITS) {
        return if negative {
            -32768
        } else {
            32767
        };
    }
    proof {
        smaller_numbers_have_smaller_bits(bits, PIXEL_LIMIT_BITS);
        assert(exponent_bits(PIXEL_LIMIT_BITS) == 0x40E);
    }
    let size: u64 = Double::from_bits(bits).rounded();
    if negative {
        (-(size as i64)) as i16
    } else if size > 32767 {
        32767
    } else {
        size as i16
    }
}

/// How far a delta reaches follows from its size.
proof fn lemma_large_step(size: nat)
    ensures
        size > 32768 * pow2(1074) ==> (2 * size + pow2(1074)) / pow2(1075) >= 32768,
        size <= 32768 * pow2(1074) ==> (2 * size + pow2(1074)) / pow2(1075) <= 32768,
{
    let one = pow2(1074);
    vstd::arithmetic::power2::lemma2_to64();
    lemma_pow2_pos(1074);
    lemma_pow2_adds(1, 1074);
    let n = 2 * size + one;
    assert(pow2(1075) == 2 * one);
    if size > 32768 * one {
        assert(n / (2 * one) >= 32768) by (nonlinear_arith)
            requires
                n > 32768 * (2 * one),
                one > 0,
        ;
    } else {
        assert(n / (2 * one) <= 32768) by (nonlinear_arith)
            requires
                n < 32769 * (2 * one),
                one > 0,
        ;
    }
}

/// Rounds a relative motion to whole pixels; `None` where none is left on either
/// axis.
pub fn mouse_rel_round(dx: u64, dy: u64) -> (r: Option<(i16, i16)>)
    ensures
        match r {
            Some((x, y)) => x == pixel_step(dx) && y == pixel_step(dy) && !(x == 0 && y == 0),
            None => pixel_step(dx) == 0 && pixel_step(dy) == 0,
        },
{
    let x: i16 = whole_pixels(dx);
    let y: i16 = whole_pixels(dy);
    if x == 0 && y == 0 {
        None
    } else {
        Some((x, y))
    }
}

// ---------------------------------------------------------------------------
// Scrolling
// ---------------------------------------------------------------------------

/// How many pixels make a notch.
pub const PIXELS_PER_NOTCH: u32 = 30;

/// The bits of 0.001: what is not more than that does not scroll.
pub const SCROLL_DEADZONE: u64 = 0x3F50_624D_D2F1_A9FC;

/// Whether a delta is large enough to scroll.
pub open spec fn scrolls(delta: u64) -> bool {
    !is_nan(delta) && scaled_size(delta) > scaled_size(SCROLL_DEADZONE)
}

/// The notches that a delta makes, with a fraction; `backwards` where a positive
/// delta takes notches away.
pub open spec fn notches_of(delta: u64, backwards: bool) -> Number {
    let pixels = if backwards {
        number_negated(number_of(delta))
    } else {
        number_of(delta)
    };
    number_share(pixels, PIXELS_PER_NOTCH as nat)
}

/// What is left, and how many whole notches there are, once `notches` came to
/// `accum`.
pub open spec fn after_scroll(accum: Number, notches: Number) -> (Number, int) {
    let sum = number_sum(accum, notches);
    let whole = whole_part_of(sum);
    (
        if whole == 0 {
            sum
        } else {
            number_sum(sum, Number::Finite(-whole * pow2(1074)))
        },
        whole,
    )
}

/// What is left, and how many whole notches there are, after a scroll along one
/// axis; `backwards` where a positive delta takes notches away.
pub open spec fn scroll_along(accum: Number, delta: u64, backwards: bool) -> (Number, int) {
    if !scrolls(delta) {
        (accum, 0)
    } else {
        after_scroll(accum, notches_of(delta, backwards))
    }
}

/// Less than a notch.
pub open spec fn is_part_of_a_notch(left: Number) -> bool {
    left matches Number::Finite(x) && -(pow2(1074) as int) < x < pow2(1074)
}

/// No part of a scroll is lost, and less than a notch is left of it: the whole
/// notches and the rest are what was there, as long as the notches can be told in
/// 32 bits.
pub proof fn less_than_a_notch_is_left(accum: int, notches: int)
    requires
        -0x8000_0001 * pow2(1074) < double_sum(accum, notches) < 0x8000_0000 * pow2(1074),
    ensures
        ({
            let (left, whole) = after_scroll(Number::Finite(accum), Number::Finite(notches));
            &&& is_part_of_a_notch(left)
            &&& left matches Number::Finite(rest) && whole * pow2(1074) + rest == double_sum(
                accum,
                notches,
            )
        }),
{
    let one = pow2(1074);
    let n: nat = if accum + notches >= 0 {
        (accum + notches) as nat
    } else {
        (-(accum + notches)) as nat
    };
    let size = nearest_double(n, 1);
    let sum = double_sum(accum, notches);
    lemma_pow2_pos(1074);
    lemma_sum_is_in_range(size);
    vstd::arithmetic::div_mod::lemma_fundamental_div_mod(size as int, one as int);
    let w = size / one;
    let d = size % one;
    assert(one * w == w * one) by (nonlinear_arith);
    assert(sum >= 0 ==> w <= 0x7FFF_FFFF) by {
        if sum >= 0 {
            assert(w < 0x8000_0000) by (nonlinear_arith)
                requires
                    w * one + d < 0x8000_0000 * one,
                    d >= 0,
                    one > 0,
            ;
        }
    }
    assert(sum < 0 ==> w <= 0x8000_0000) by {
        if sum < 0 {
            assert(w < 0x8000_0001) by (nonlinear_arith)
                requires
                    w * one + d < 0x8000_0001 * one,
                    d >= 0,
                    one > 0,
            ;
        }
    }
    if w == 0 {
        assert(w * one == 0) by (nonlinear_arith)
            requires
                w == 0,
        ;
    } else {
        lemma_rest_is_exact(n);
    }
    if sum < 0 {
        assert(-(-(w as int)) * one == w * one) by (nonlinear_arith);
        assert((-(w as int)) * one == -(w * one)) by (nonlinear_arith);
        if d == 0 {
            numbers_round_to_themselves(0, 0);
            assert(0 * pow2(0) == 0);
        }
    } else {
        assert(-(w as int) * one == -(w * one)) by (nonlinear_arith);
    }
}

/// What can be told in 32 bits is far from infinite.
proof fn lemma_sum_is_in_range(size: nat)
    requires
        size < 0x8000_0001 * pow2(1074),
    ensures
        size < pow2(2098),
{
    let one = pow2(1074);
    lemma_pow2_pos(1074);
    lemma2_to64_rest();
    lemma_pow2_adds(64, 1074);
    crate::double::powers_grow(1138, 2098);
    assert(0x8000_0001 * one < 0x1_0000_0000_0000_0000 * one) by (nonlinear_arith)
        requires
            one > 0,
    ;
}

/// What is left of a rounded number once the whole part is gone is exact.
proof fn lemma_rest_is_exact(n: nat)
    requires
        nearest_double(n, 1) < 0x8000_0001 * pow2(1074),
        nearest_double(n, 1) / pow2(1074) > 0,
    ensures
        nearest_double(nearest_double(n, 1) % pow2(1074), 1) == nearest_double(n, 1) % pow2(1074),
{
    let one = pow2(1074);
    let size = nearest_double(n, 1);
    assert(n / 1 == n);
    let k = crate::double::spare_digits(n);
    let unit = pow2(k);
    let q = crate::double::nearest_even(n, 1 * unit);
    crate::double::rounded_numbers_are_short(n, 1);
    assert(size == q * unit);
    lemma_pow2_pos(k);
    lemma_pow2_pos(1074);
    if k > 1074 {
        crate::double::digits_bound_numbers(n);
        vstd::arithmetic::power2::lemma2_to64();
        lemma_pow2_adds(32, 1074);
        crate::double::powers_grow(1106, (crate::double::digits(n) - 1) as nat);
        assert(1 * pow2(1106) * 1 <= n);
        crate::double::rounding_keeps_lower_bounds(n, 1, 1, 1106);
        assert(0x8000_0001 * one < 0x1_0000_0000 * one) by (nonlinear_arith)
            requires
                one > 0,
        ;
    }
    let rest = (1074 - k) as nat;
    let span = pow2(rest);
    lemma_pow2_pos(rest);
    lemma_pow2_adds(rest, k);
    let w = q / span;
    let j = q % span;
    vstd::arithmetic::div_mod::lemma_fundamental_div_mod(q as int, span as int);
    assert(size == w * one + j * unit) by (nonlinear_arith)
        requires
            size == q * unit,
            q == span * w + j,
            one == span * unit,
    ;
    assert(j * unit < one) by (nonlinear_arith)
        requires
            j < span,
            one == span * unit,
            unit > 0,
    ;
    vstd::arithmetic::div_mod::lemma_fundamental_div_mod_converse(
        size as int,
        one as int,
        w as int,
        (j * unit) as int,
    );
    assert(j < q) by (nonlinear_arith)
        requires
            q == span * w + j,
            w > 0,
            span > 0,
    ;
    numbers_round_to_themselves(j, k);
}

/// The event code and keycode that a key is injected with.
pub fn key_inject_params(evdev_code: u16, pressed: bool) -> (r: (u8, u8))
    requires
        evdev_code <= u16::MAX - 8,
    ensures
        r.0 == if pressed {
            KEY_PRESS_EVENT
        } else {
            KEY_RELEASE_EVENT
        },
        r.1 == x11_keycode(evdev_code),
        pressed ==> r.0 == 2,
        !pressed ==> r.0 == 3,
        evdev_code <= 247 ==> r.1 == evdev_code + 8,
{
    let x_keycode: u8 = InputInjector::evdev_to_x11_keycode(evdev_code);
    let event_type: u8 = if pressed {
        KEY_PRESS_EVENT
    } else {
        KEY_RELEASE_EVENT
    };
    (event_type, x_keycode)
}

/// Turns input into fake X11 events on a display, by way of XTEST. No kernel
/// device is needed for it.
#[derive(Debug, Clone)]
pub struct InputInjector {
    root: u32,
    /// The part of a notch that is left of scrolls, by its bits.
    scroll_accum_x: u64,
    scroll_accum_y: u64,
}

impl InputInjector {
    /// The root window of the display.
    pub closed spec fn root_window(self) -> u32 {
        self.root
    }

    /// What is left of horizontal scrolls.
    pub closed spec fn left_across(self) -> Number {
        number_of(self.scroll_accum_x)
    }

    /// What is left of vertical scrolls.
    pub closed spec fn left_up(self) -> Number {
        number_of(self.scroll_accum_y)
    }

    /// Whether less than a notch is left of scrolls.
    pub open spec fn owes_less_than_a_notch(self) -> bool {
        is_part_of_a_notch(self.left_across()) && is_part_of_a_notch(self.left_up())
    }

    /// The injector for a display with the given root window, where the server
    /// has XTEST.
    pub fn new(root: u32, has_xtest: bool) -> (r: Result<Self, String>)
        ensures
            has_xtest ==> r is Ok && r->Ok_0.owes_less_than_a_notch()
                && r->Ok_0.root_window() == root
                && r->Ok_0.left_across() == Number::Finite(0)
                && r->Ok_0.left_up() == Number::Finite(0),
            !has_xtest ==> r is Err && r->Err_0@ == NO_XTEST_ERROR@,
    {
        if has_xtest {
            proof {
                lemma_pow2_pos(1074);
            }
            Ok(InputInjector { root, scroll_accum_x: 0, scroll_accum_y: 0 })
        } else {
            Err(NO_XTEST_ERROR.to_owned())
        }
    }

    /// The X11 keycode of a Linux evdev keycode: eight more.
    pub fn evdev_to_x11_keycode(evdev: u16) -> (r: u8)
        requires
            evdev <= u16::MAX - 8,
        ensures
            r == x11_keycode(evdev),
            evdev <= 247 ==> r == evdev + 8,
            (evdev + 8 - r) % 256 == 0,
    {
        ((evdev + 8) % 256) as u8
    }

    /// The X11 button of a browser's button: left, middle and right.
    pub fn map_button(button: u8) -> (r: Result<u8, String>)
        ensures
            match x11_button(button) {
                Some(b) => r == Ok::<u8, String>(b),
                None => r is Err && r->Err_0@ == unknown_button(button),
            },
            button <= 2 ==> r == Ok::<u8, String>((button + 1) as u8),
            button > 2 ==> r is Err,
    {
        match button {
            0 => Ok(1),
            1 => Ok(2),
            2 => Ok(3),
            _ => {
                let mut e: String = "Unknown mouse button: ".to_owned();
                append_decimal(&mut e, button as u64);
                Err(e)
            },
        }
    }

    /// The button and the number of clicks for a vertical scroll; `None` where
    /// there is no whole notch.
    pub fn vertical_scroll_button(discrete: i32) -> (r: Option<(u8, u32)>)
        ensures
            match (scroll_clicks(discrete as int, 4, 5), r) {
                (Some((button, count)), Some((b, n))) => b == button && n == count,
                (None, None) => true,
                _ => false,
            },
            discrete > 0 ==> (r matches Some((b, n)) && b == 4 && n == discrete),
            discrete < 0 ==> (r matches Some((b, n)) && b == 5 && n == -discrete),
            discrete == 0 ==> r is None,
    {
        if discrete > 0 {
            Some((4u8, discrete as u32))
        } else if discrete < 0 {
            Some((5u8, distance(discrete)))
        } else {
            None
        }
    }

    /// The button and the number of clicks for a horizontal scroll; `None` where
    /// there is no whole notch.
    pub fn horizontal_scroll_button(discrete: i32) -> (r: Option<(u8, u32)>)
        ensures
            match (scroll_clicks(discrete as int, 7, 6), r) {
                (Some((button, count)), Some((b, n))) => b == button && n == count,
                (None, None) => true,
                _ => false,
            },
            discrete > 0 ==> (r matches Some((b, n)) && b == 7 && n == discrete),
            discrete < 0 ==> (r matches Some((b, n)) && b == 6 && n == -discrete),
            discrete == 0 ==> r is None,
    {
        if discrete > 0 {
            Some((7u8, discrete as u32))
        } else if discrete < 0 {
            Some((6u8, distance(discrete)))
        } else {
            None
        }
    }

    /// Whether a delta is large enough to scroll.
    pub fn scroll_delta_is_active(delta: u64) -> (r: bool)
        ensures
            r == scrolls(delta),
    {
        exceeds(delta, SCROLL_DEADZONE)
    }

    /// Adds notches, with a fraction, to those that are left, and takes the whole
    /// ones out.
    pub fn accumulate_scroll(accum: &mut u64, notches: u64) -> (r: i32)
        ensures
            (number_of(*final(accum)), r as int) == after_scroll(
                number_of(*old(accum)),
                number_of(notches),
            ),
    {
        let sum: u64 = sum_of_bits(*accum, notches);
        let whole: i32 = whole_part_of_bits(sum);
        *accum = if whole == 0 {
            sum
        } else {
            sum_of_bits(sum, bits_of_whole(-(whole as i64)))
        };
        whole
    }

    /// The event for a key. `code` is a Linux evdev keycode.
    pub fn inject_key(&self, code: u16, pressed: bool) -> (r: FakeInput)
        requires
            code <= u16::MAX - 8,
        ensures
            r.event_type == (if pressed {
                KEY_PRESS_EVENT
            } else {
                KEY_RELEASE_EVENT
            }),
            r.detail == x11_keycode(code),
            code <= 247 ==> r.detail == code + 8,
            pressed ==> r.event_type == 2,
            !pressed ==> r.event_type == 3,
            r.root == self.root_window(),
            r.x == 0,
            r.y == 0,
    {
        let (event_type, x_keycode) = key_inject_params(code, pressed);
        FakeInput { event_type, detail: x_keycode, root: self.root, x: 0, y: 0 }
    }

    /// The event for motion to a place between 0 and 1 on either axis of a screen of
    /// the given size.
    pub fn inject_mouse_move_abs(&self, x: u64, y: u64, width: u32, height: u32) -> (r: FakeInput)
        ensures
            r.event_type == MOTION_NOTIFY_EVENT,
            r.detail == 0,
            r.root == self.root_window(),
            r.x == pixel_at(x, width),
            r.y == pixel_at(y, height),
    {
        let (px, py) = mouse_abs_to_pixels(x, y, width, height);
        FakeInput { event_type: MOTION_NOTIFY_EVENT, detail: 0, root: self.root, x: px, y: py }
    }

    /// The event for motion by some pixels; `None` where no whole pixel is left.
    pub fn inject_mouse_move_rel(&self, dx: u64, dy: u64) -> (r: Option<FakeInput>)
        ensures
            match r {
                Some(event) => {
                    &&& event.event_type == MOTION_NOTIFY_EVENT
                    &&& event.detail == 1
                    &&& event.root == 0
                    &&& event.x == pixel_step(dx)
                    &&& event.y == pixel_step(dy)
                    &&& !(event.x == 0 && event.y == 0)
                    &&& event.event_type == 6
                },
                None => pixel_step(dx) == 0 && pixel_step(dy) == 0,
            },
    {
        match mouse_rel_round(dx, dy) {
            Some((x, y)) => Some(
                FakeInput { event_type: MOTION_NOTIFY_EVENT, detail: 1, root: 0, x, y },
            ),
            None => None,
        }
    }

    /// The event for a mouse button.
    pub fn inject_button(&self, button: u8, pressed: bool) -> (r: Result<FakeInput, String>)
        ensures
            match x11_button(button) {
                Some(b) => r == Ok::<FakeInput, String>(
                    button_event(self.root_window(), b, pressed),
                ),
                None => r is Err && r->Err_0@ == unknown_button(button),
            },
            r is Ok <==> button <= 2,
            r matches Ok(event) ==> event.detail == button + 1 && event.event_type == (if pressed {
                4u8
            } else {
                5u8
            }) && event.root == self.root_window() && event.x == 0 && event.y == 0,
    {
        let x_button: u8 = match Self::map_button(button) {
            Ok(b) => b,
            Err(e) => {
                return Err(e);
            },
        };
        Ok(self.button(x_button, pressed))
    }

    fn button(&self, button: u8, pressed: bool) -> (r: FakeInput)
        ensures
            r == button_event(self.root_window(), button, pressed),
    {
        let event_type: u8 = if pressed {
            BUTTON_PRESS_EVENT
        } else {
            BUTTON_RELEASE_EVENT
        };
        FakeInput { event_type, detail: button, root: self.root, x: 0, y: 0 }
    }

    /// Counts a scroll along one axis. Gives the whole notches.
    fn count_notches(accum: &mut u64, delta: u64, backwards: bool) -> (r: i32)
        ensures
            (number_of(*final(accum)), r as int) == scroll_along(
                number_of(*old(accum)),
                delta,
                backwards,
            ),
    {
        if !Self::scroll_delta_is_active(delta) {
            return 0;
        }
        proof {
            assert(exponent_bits(SCROLL_DEADZONE) == 0x3F5);
            smaller_numbers_have_smaller_bits(SCROLL_DEADZONE, delta);
        }
        let pixels: u64 = if backwards {
            negated_bits(delta)
        } else {
            delta
        };
        Self::accumulate_scroll(accum, share_of_bits(pixels, PIXELS_PER_NOTCH))
    }

    /// The events for a scroll by some pixels along the vertical axis, up for negative
    /// deltas. A part of a notch is kept for the next scroll.
    pub fn inject_scroll_vertical(&mut self, dy: u64) -> (r: Vec<FakeInput>)
        ensures
            final(self).root_window() == old(self).root_window(),
            final(self).left_up() == scroll_along(old(self).left_up(), dy, true).0,
            final(self).left_across() == old(self).left_across(),
            r@ == scroll_events(
                old(self).root_window(),
                scroll_clicks(scroll_along(old(self).left_up(), dy, true).1, 4, 5),
            ),
            old(self).left_up() == Number::Finite(0) && is_finite(dy) && !is_negative(dy) ==> forall|
                count: nat,
            |
                0 < count <= 0x7FFF_FFFF && scaled_size(dy) == 30 * count * pow2(1074) ==> r@
                    == #[trigger] clicks(old(self).root_window(), 5, count),
            old(self).left_up() == Number::Finite(0) && is_finite(dy) && is_negative(dy) ==> forall|
                count: nat,
            |
                0 < count <= 0x7FFF_FFFF && scaled_size(dy) == 30 * count * pow2(1074) ==> r@
                    == #[trigger] clicks(old(self).root_window(), 4, count),
    {
        let mut up: u64 = self.scroll_accum_y;
        let notches: i32 = Self::count_notches(&mut up, dy, true);
        self.scroll_accum_y = up;
        let mut events: Vec<FakeInput> = Vec::new();
        if let Some((button, count)) = Self::vertical_scroll_button(notches) {
            self.click(&mut events, button, count);
        }
        assert(events@ =~= scroll_events(self.root_window(), scroll_clicks(notches as int, 4, 5)));
        proof {
            if old(self).left_up() == Number::Finite(0) && is_finite(dy) {
                let turned: u8 = if is_negative(dy) {
                    4
                } else {
                    5
                };
                assert forall|count: nat|
                    0 < count <= 0x7FFF_FFFF && scaled_size(dy) == 30 * count * pow2(
                        1074,
                    ) implies events@ == #[trigger] clicks(
                    old(self).root_window(),
                    turned,
                    count,
                ) by {
                    thirty_pixels_make_a_notch(dy, count);
                }
            }
        }
        events
    }

    /// The events for a scroll by some pixels along the horizontal axis, to the right
    /// for positive deltas. A part of a notch is kept for the next scroll.
    pub fn inject_scroll_horizontal(&mut self, dx: u64) -> (r: Vec<FakeInput>)
        ensures
            final(self).root_window() == old(self).root_window(),
            final(self).left_up() == old(self).left_up(),
            final(self).left_across() == scroll_along(old(self).left_across(), dx, false).0,
            r@ == scroll_events(
                old(self).root_window(),
                scroll_clicks(scroll_along(old(self).left_across(), dx, false).1, 7, 6),
            ),
            old(self).left_across() == Number::Finite(0) && is_finite(dx) && !is_negative(dx) ==> forall|
                count: nat,
            |
                0 < count <= 0x7FFF_FFFF && scaled_size(dx) == 30 * count * pow2(1074) ==> r@
                    == #[trigger] clicks(old(self).root_window(), 7, count),
            old(self).left_across() == Number::Finite(0) && is_finite(dx) && is_negative(dx) ==> forall|
                count: nat,
            |
                0 < count <= 0x7FFF_FFFF && scaled_size(dx) == 30 * count * pow2(1074) ==> r@
                    == #[trigger] clicks(old(self).root_window(), 6, count),
    {
        let mut across: u64 = self.scroll_accum_x;
        let notches: i32 = Self::count_notches(&mut across, dx, false);
        self.scroll_accum_x = across;
        let mut events: Vec<FakeInput> = Vec::new();
        if let Some((button, count)) = Self::horizontal_scroll_button(notches) {
            self.click(&mut events, button, count);
        }
        assert(events@ =~= scroll_events(self.root_window(), scroll_clicks(notches as int, 7, 6)));
        proof {
            if old(self).left_across() == Number::Finite(0) && is_finite(dx) {
                let turned: u8 = if is_negative(dx) {
                    6
                } else {
                    7
                };
                assert forall|count: nat|
                    0 < count <= 0x7FFF_FFFF && scaled_size(dx) == 30 * count * pow2(
                        1074,
                    ) implies events@ == #[trigger] clicks(
                    old(self).root_window(),
                    turned,
                    count,
                ) by {
                    thirty_pixels_make_a_notch(dx, count);
                }
            }
        }
        events
    }

    /// The events for a scroll by some pixels: first those of the vertical axis, then
    /// those of the horizontal one. Where sending the first ones may fail, the axes are
    /// taken one by one: a scroll that stops there leaves the horizontal axis alone.
    pub fn inject_scroll(&mut self, dx: u64, dy: u64) -> (r: Vec<FakeInput>)
        ensures
            final(self).root_window() == old(self).root_window(),
            final(self).left_up() == scroll_along(old(self).left_up(), dy, true).0,
            final(self).left_across() == scroll_along(old(self).left_across(), dx, false).0,
            r@ == scroll_events(
                old(self).root_window(),
                scroll_clicks(scroll_along(old(self).left_up(), dy, true).1, 4, 5),
            ) + scroll_events(
                old(self).root_window(),
                scroll_clicks(scroll_along(old(self).left_across(), dx, false).1, 7, 6),
            ),
    {
        let mut events: Vec<FakeInput> = self.inject_scroll_vertical(dy);
        let mut across: Vec<FakeInput> = self.inject_scroll_horizontal(dx);
        events.append(&mut across);
        events
    }

    /// Adds clicks of a button.
    fn click(&self, events: &mut Vec<FakeInput>, button: u8, count: u32)
        ensures
            final(events)@ == old(events)@ + clicks(self.root_window(), button, count as nat),
    {
        let ghost before = events@;
        let mut i: u32 = 0;
        assert(events@ =~= before + clicks(self.root_window(), button, 0));
        while i < count
            invariant
                i <= count,
                events@ == before + clicks(self.root_window(), button, i as nat),
            decreases count - i,
        {
            events.push(self.button(button, true));
            events.push(self.button(button, false));
            i = i + 1;
            assert(events@ =~= before + clicks(self.root_window(), button, i as nat));
        }
    }
}

/// A scroll that input events may ask for leaves less than a notch.
pub proof fn bounded_scrolls_leave_less_than_a_notch(left: Number, delta: u64, backwards: bool)
    requires
        is_part_of_a_notch(left),
        is_bounded(delta, MAX_INPUT_DELTA as nat),
    ensures
        is_part_of_a_notch(scroll_along(left, delta, backwards).0),
{
    if scrolls(delta) {
        let one = pow2(1074);
        let size = scaled_size(delta);
        let share = double_quotient(size, 30nat * one);
        lemma_pow2_pos(1074);
        assert(size * one <= 10_000nat * one * (30nat * one)) by (nonlinear_arith)
            requires
                size <= 10_000 * one,
                one > 0,
        ;
        rounding_keeps_upper_bounds(size * one, 30nat * one, 10_000, 1074);
        let rest = left->Finite_0;
        let notches = notches_of(delta, backwards)->Finite_0;
        assert(notches == share || notches == -(share as int));
        let n: nat = if rest + notches >= 0 {
            (rest + notches) as nat
        } else {
            (-(rest + notches)) as nat
        };
        assert(share <= 10_000nat * one);
        assert(n <= share + one);
        assert(n <= 10_001nat * one * 1) by (nonlinear_arith)
            requires
                n <= share + one,
                share <= 10_000nat * one,
        ;
        rounding_keeps_upper_bounds(n, 1, 10_001, 1074);
        less_than_a_notch_is_left(rest, notches);
    }
}

/// How far a negative number is from zero.
fn distance(n: i32) -> (r: u32)
    requires
        n < 0,
    ensures
        r == magnitude(n as int),
{
    (-(n as i64)) as u32
}

/// Every press of a scroll is followed by its release: no button stays down.
pub proof fn scrolling_releases_buttons(root: u32, button: u8, count: nat)
    ensures
        clicks(root, button, count).len() == 2 * count,
        forall|i: int|
            0 <= i < count ==> #[trigger] clicks(root, button, count)[2 * i] == button_event(
                root,
                button,
                true,
            ) && clicks(root, button, count)[2 * i + 1] == button_event(root, button, false),
    decreases count,
{
    if count > 0 {
        let n = (count - 1) as nat;
        scrolling_releases_buttons(root, button, n);
        let c = clicks(root, button, count);
        let d = clicks(root, button, n);
        assert forall|i: int| 0 <= i < count implies #[trigger] c[2 * i] == button_event(
            root,
            button,
            true,
        ) && c[2 * i + 1] == button_event(root, button, false) by {
            if i < n {
                assert(c[2 * i] == d[2 * i]);
                assert(c[2 * i + 1] == d[2 * i + 1]);
            }
        }
    }
}

/// The three mouse buttons keep their order, and there is no fourth.
pub proof fn buttons_are_one_apart(button: u8)
    ensures
        button <= 2 ==> x11_button(button) == Some((button + 1) as u8),
        button > 2 ==> x11_button(button) is None,
{
}

/// A scroll by a whole number of notches, thirty pixels each, gives just as many
/// notches, and nothing is left of it. Along the vertical axis the notches go the other
/// way.
pub proof fn thirty_pixels_make_a_notch(delta: u64, count: nat)
    requires
        is_finite(delta),
        scaled_size(delta) == 30 * count * pow2(1074),
        0 < count <= 0x7FFF_FFFF,
    ensures
        scroll_along(Number::Finite(0), delta, false) == (
            Number::Finite(0),
            if is_negative(delta) {
                -count
            } else {
                count as int
            },
        ),
        scroll_along(Number::Finite(0), delta, true) == (
            Number::Finite(0),
            if is_negative(delta) {
                count as int
            } else {
                -count
            },
        ),
{
    let one = pow2(1074);
    let size = scaled_size(delta);
    let limit = pow2(2098);
    lemma_pow2_pos(1074);
    lemma2_to64_rest();
    vstd::arithmetic::power2::lemma2_to64();
    lemma_pow2_adds(64, 1074);
    crate::double::powers_grow(64 + 1074, 2098);
    lemma_deadzone();
    assert(size >= 30 * one) by (nonlinear_arith)
        requires
            size == 30 * count * one,
            count >= 1,
    ;
    assert(scrolls(delta));
    assert(size * one == count * one * (30nat * one)) by (nonlinear_arith)
        requires
            size == 30 * count * one,
    ;
    rounding_keeps_upper_bounds(size * one, 30nat * one, count, 1074);
    crate::double::rounding_keeps_lower_bounds(size * one, 30nat * one, count, 1074);
    let share = double_quotient(size, 30nat * one);
    assert(share == count * one);
    assert(0 < count * one < 0x1_0000_0000_0000_0000 * one) by (nonlinear_arith)
        requires
            0 < count <= 0x7FFF_FFFF,
            one > 0,
    ;
    numbers_round_to_themselves(count, 1074);
    numbers_round_to_themselves(0, 1074);
    assert(0 * one == 0) by (nonlinear_arith);
    vstd::arithmetic::div_mod::lemma_div_multiples_vanish(count as int, one as int);
    assert((count * one) as int / one as int == count) by {
        vstd::arithmetic::div_mod::lemma_fundamental_div_mod_converse(
            (count * one) as int,
            one as int,
            count as int,
            0,
        );
    }
    assert(-(-(count as int)) * one == count * one) by (nonlinear_arith);
    assert(-(count as int) * one == -((count * one) as int)) by (nonlinear_arith);
    assert(double_sum(0, share as int) == share);
    assert(double_sum(0, -(share as int)) == -(share as int));
    assert(double_sum(share as int, -(share as int)) == 0);
    assert(double_sum(-(share as int), share as int) == 0);
}

/// What is not more than a thousandth of a pixel does not scroll: no notch is made and
/// what was left stays. What is more does, but for the part that a floating-point number
/// cannot hold.
pub proof fn the_smallest_scroll_is_a_thousandth(left: Number, delta: u64, backwards: bool)
    requires
        is_finite(delta),
    ensures
        1000 * scaled_size(delta) <= pow2(1074) ==> scroll_along(left, delta, backwards) == (
            left,
            0int,
        ),
        1_000_000 * scaled_size(delta) > 1_001 * pow2(1074) ==> scrolls(delta),
{
    lemma_deadzone();
}

proof fn lemma_deadzone()
    ensures
        pow2(1074) <= 1000 * scaled_size(SCROLL_DEADZONE),
        1_000_000 * scaled_size(SCROLL_DEADZONE) < 1_001 * pow2(1074),
{
    lemma2_to64_rest();
    lemma_pow2_adds(62, 1012);
    lemma_pow2_pos(1012);
    assert(exponent_bits(SCROLL_DEADZONE) == 0x3F5);
    assert(scaled_size(SCROLL_DEADZONE) == 0x10_624D_D2F1_A9FC * pow2(1012));
}

/// A place on an axis keeps its share of it: whatever whole number of pixels the share
/// of the size reaches, the pixel reaches too, and whatever it does not exceed, the pixel
/// does not either. What lies before the axis is its first pixel, what lies behind it
/// its end.
pub proof fn pixels_follow_the_coordinate(bits: u64, size: u32, pixels: nat)
    requires
        is_finite(bits),
        pixels <= 32767,
    ensures
        is_negative(bits) ==> pixel_at(bits, size) == 0,
        !is_negative(bits) && scaled_size(bits) >= pow2(1074) && size <= 32767 ==> pixel_at(
            bits,
            size,
        ) == size,
        !is_negative(bits) && scaled_size(bits) <= pow2(1074) && scaled_size(bits) * size >= pixels
            * pow2(1074) ==> pixel_at(bits, size) >= pixels,
        !is_negative(bits) && scaled_size(bits) <= pow2(1074) && scaled_size(bits) * size <= pixels
            * pow2(1074) ==> pixel_at(bits, size) <= pixels,
{
    let one = pow2(1074);
    let held = held_coordinate(bits);
    let n = size as nat;
    lemma_pow2_pos(1074);
    let product = double_product(held, n * one);
    if is_negative(bits) {
        lemma_pixel_bounds(bits, size, 0);
        assert(held * n == 0) by (nonlinear_arith)
            requires
                held == 0,
        ;
        assert(0 * one == 0) by (nonlinear_arith);
    } else if scaled_size(bits) >= one {
        lemma_pixel_bounds(bits, size, n);
        assert(held * n == n * one) by (nonlinear_arith)
            requires
                held == one,
        ;
    }
    lemma_pixel_bounds(bits, size, pixels);
}

proof fn lemma_pixel_bounds(bits: u64, size: u32, pixels: nat)
    requires
        pixels <= u32::MAX,
    ensures
        held_coordinate(bits) * size >= pixels * pow2(1074) && pixels <= 32767 ==> pixel_at(
            bits,
            size,
        ) >= pixels,
        held_coordinate(bits) * size <= pixels * pow2(1074) ==> pixel_at(bits, size) <= pixels,
{
    let one = pow2(1074);
    let held = held_coordinate(bits);
    let n = size as nat;
    lemma_pow2_pos(1074);
    let product = double_product(held, n * one);
    if held * n >= pixels * one {
        assert(held * (n * one) >= pixels * one * one) by (nonlinear_arith)
            requires
                held * n >= pixels * one,
        ;
        crate::double::rounding_keeps_lower_bounds(held * (n * one), one, pixels, 1074);
        assert(product / one >= pixels) by (nonlinear_arith)
            requires
                product >= pixels * one,
                one > 0,
        ;
    }
    if held * n <= pixels * one {
        assert(held * (n * one) <= pixels * one * one) by (nonlinear_arith)
            requires
                held * n <= pixels * one,
        ;
        rounding_keeps_upper_bounds(held * (n * one), one, pixels, 1074);
        assert(product / one <= pixels) by (nonlinear_arith)
            requires
                product <= pixels * one,
                one > 0,
        ;
    }
}

/// A relative motion goes to the nearest pixel: it is never off by more than a half, and
/// never turns round. Halves go away from where the pointer is.
pub proof fn steps_go_to_the_nearest_pixel(bits: u64)
    requires
        is_finite(bits),
        scaled_size(bits) <= 32767 * pow2(1074),
    ensures
        ({
            let step = pixel_step(bits);
            let one = pow2(1074) as int;
            let size = scaled_size(bits) as int;
            &&& is_negative(bits) ==> step <= 0 && 2 * size - one < 2 * (-step) * one <= 2 * size
                + one
            &&& !is_negative(bits) ==> step >= 0 && 2 * size - one < 2 * step * one <= 2 * size
                + one
        }),
{
    let one = pow2(1074);
    let size = scaled_size(bits);
    lemma_pow2_pos(1074);
    vstd::arithmetic::power2::lemma2_to64();
    lemma_pow2_adds(1, 1074);
    let two = pow2(1075);
    assert(two == 2 * one);
    let q = (2 * size + one) / two;
    vstd::arithmetic::div_mod::lemma_fundamental_div_mod((2 * size + one) as int, two as int);
    vstd::arithmetic::div_mod::lemma_mod_bound((2 * size + one) as int, two as int);
    assert(two * q == 2 * q * one) by (nonlinear_arith)
        requires
            two == 2 * one,
    ;
    assert(q <= 32767) by (nonlinear_arith)
        requires
            2 * q * one <= 2 * size + one,
            size <= 32767 * one,
            one > 0,
    ;
}

/// The X11 keycode of a key is its evdev code plus 8, for every evdev code up to 247:
/// it lies as far above X11's first keycode, 8, as the evdev code lies above 0. The
/// next evdev code has the next X11 keycode.
pub proof fn keycodes_are_eight_apart(evdev: u16)
    requires
        evdev <= 247,
    ensures
        x11_keycode(evdev) - evdev == 8,
        8 <= x11_keycode(evdev) <= 255,
        evdev < 247 ==> x11_keycode((evdev + 1) as u16) == x11_keycode(evdev) + 1,
{
}

/// Keycodes that an X server has (up to 247 in evdev) are told apart.
pub proof fn keycodes_are_distinct(a: u16, b: u16)
    requires
        a <= 247,
        b <= 247,
        x11_keycode(a) == x11_keycode(b),
    ensures
        a == b,
{
}

/// What is no number moves nothing and points at the first pixel. A motion of more than a
/// screen can have goes as far as 16 bits reach, on its own side.
pub proof fn extreme_motion_is_held(bits: u64, size: u32)
    ensures
        is_nan(bits) ==> pixel_step(bits) == 0 && pixel_at(bits, size) == 0,
        !is_nan(bits) && is_negative(bits) && scaled_size(bits) >= 32768 * pow2(1074) ==> pixel_step(
            bits,
        ) == -32768,
        !is_nan(bits) && !is_negative(bits) && scaled_size(bits) >= 32767 * pow2(1074)
            ==> pixel_step(bits) == 32767,
{
    let one = pow2(1074);
    lemma_pow2_pos(1074);
    if is_nan(bits) {
        assert(held_coordinate(bits) * size == 0) by (nonlinear_arith)
            requires
                held_coordinate(bits) == 0,
        ;
        assert(0 * one == 0) by (nonlinear_arith);
        lemma_pixel_bounds(bits, size, 0);
    } else {
        vstd::arithmetic::power2::lemma2_to64();
        lemma_pow2_adds(1, 1074);
        let two = pow2(1075);
        let size = scaled_size(bits);
        let q = (2 * size + one) / two;
        vstd::arithmetic::div_mod::lemma_fundamental_div_mod((2 * size + one) as int, two as int);
        vstd::arithmetic::div_mod::lemma_mod_bound((2 * size + one) as int, two as int);
        if size >= 32767 * one {
            assert(q >= 32767) by (nonlinear_arith)
                requires
                    two * q + two > 2 * size + one,
                    two == 2 * one,
                    size >= 32767 * one,
                    one > 0,
            ;
        }
        if size >= 32768 * one {
            assert(q >= 32768) by (nonlinear_arith)
                requires
                    two * q + two > 2 * size + one,
                    two == 2 * one,
                    size >= 32768 * one,
                    one > 0,
            ;
        }
    }
}

} // verus!
