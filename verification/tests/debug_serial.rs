use aloe::debug::{
    pretty_step, AsciiBackground, AsciiForeground, AsciiMod, Colorized, PrettyAction,
};
use aloe::serial::SerialBaud;

#[test]
fn divisors_of_the_baud_rates() {
    assert_eq!(SerialBaud::Baud115200.get_divisor(), 1);
    assert_eq!(SerialBaud::Baud9600.get_divisor(), 12);
    assert_eq!(SerialBaud::Baud600.get_divisor(), 192);
    assert_eq!(SerialBaud::Baud300.get_divisor(), 384);
}

#[test]
fn header_opens_each_line() {
    assert_eq!(pretty_step(true, 'a'), (false, PrettyAction::HeaderThenChar));
    assert_eq!(pretty_step(false, 'b'), (false, PrettyAction::Char));
    assert_eq!(pretty_step(false, '\n'), (true, PrettyAction::LineEnd));
    assert_eq!(pretty_step(true, '\n'), (true, PrettyAction::LineEnd));
}

#[test]
fn plain_text_has_no_styling() {
    let text = 5u32;
    let c = Colorized::new(&text);
    assert!(c.is_plain());
    assert!(c.style_prefix().is_empty());
    assert!(c.style_suffix().is_empty());
    assert_eq!(*c.inner(), 5);
}

#[test]
fn styled_text_codes() {
    let text = "x";
    let c = Colorized::new(&text)
        .mode(AsciiMod::Bold)
        .foreground(AsciiForeground::Red)
        .background(AsciiBackground::OnBlue);
    assert_eq!(c.style_prefix(), b"[1;31;44m".to_vec());
    assert_eq!(c.style_suffix(), b"[22;0m".to_vec());
    let only_fore = Colorized::new(&text).foreground(AsciiForeground::Green);
    assert_eq!(only_fore.style_prefix(), b"[32m".to_vec());
    assert_eq!(only_fore.style_suffix(), b"[0m".to_vec());
}
