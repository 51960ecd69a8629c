use vstd::prelude::*;

verus! {

/// Foreground colours of a terminal.
#[derive(Clone, Copy, Debug, PartialEq, Eq, Structural)]
pub enum AsciiForeground {
    Unset,
    Black,
    Red,
    Green,
    Yellow,
    Blue,
    Magenta,
    Cyan,
    White,
    Default,
    Reset,
    BrightBlack,
    BrightRed,
    BrightGreen,
    BrightYellow,
    BrightBlue,
    BrightMagenta,
    BrightCyan,
    BrightWhite,
}

/// Background colours of a terminal.
#[derive(Clone, Copy, Debug, PartialEq, Eq, Structural)]
pub enum AsciiBackground {
    Unset,
    OnBlack,
    OnRed,
    OnGreen,
    OnYellow,
    OnBlue,
    OnMagenta,
    OnCyan,
    OnWhite,
    OnDefault,
    OnBrightBlack,
    OnBrightRed,
    OnBrightGreen,
    OnBrightYellow,
    OnBrightBlue,
    OnBrightMagenta,
    OnBrightCyan,
    OnBrightWhite,
}

/// Text modes of a terminal.
#[derive(Clone, Copy, Debug, PartialEq, Eq, Structural)]
pub enum AsciiMod {
    Unset,
    Bold,
    Dim,
    Italic,
    Underline,
    Blinking,
    Inverse,
    Hidden,
    Strikethrough,
}

/// The kinds of messages of the debug log.
#[derive(Clone, Copy, Debug, PartialEq, Eq, Structural)]
pub enum LogKind {
    Log,
    Warn,
    Error,
}

/// The terminal code of a foreground colour (255 for `Unset`).
pub open spec fn fore_code(c: AsciiForeground) -> u8 {
    match c {
        AsciiForeground::Unset => 255,
        AsciiForeground::Black => 30,
        AsciiForeground::Red => 31,
        AsciiForeground::Green => 32,
        AsciiForeground::Yellow => 33,
        AsciiForeground::Blue => 34,
        AsciiForeground::Magenta => 35,
        AsciiForeground::Cyan => 36,
        AsciiForeground::White => 37,
        AsciiForeground::Default => 39,
        AsciiForeground::Reset => 0,
        AsciiForeground::BrightBlack => 90,
        AsciiForeground::BrightRed => 91,
        AsciiForeground::BrightGreen => 92,
        AsciiForeground::BrightYellow => 93,
        AsciiForeground::BrightBlue => 94,
        AsciiForeground::BrightMagenta => 95,
        AsciiForeground::BrightCyan => 96,
        AsciiForeground::BrightWhite => 97,
    }
}

/// The terminal code of a background colour (255 for `Unset`).
pub open spec fn back_code(c: AsciiBackground) -> u8 {
    match c {
        AsciiBackground::Unset => 255,
        AsciiBackground::OnBlack => 40,
        AsciiBackground::OnRed => 41,
        AsciiBackground::OnGreen => 42,
        AsciiBackground::OnYellow => 43,
        AsciiBackground::OnBlue => 44,
        AsciiBackground::OnMagenta => 45,
        AsciiBackground::OnCyan => 46,
        AsciiBackground::OnWhite => 47,
        AsciiBackground::OnDefault => 49,
        AsciiBackground::OnBrightBlack => 100,
        AsciiBackground::OnBrightRed => 101,
        AsciiBackground::OnBrightGreen => 102,
        AsciiBackground::OnBrightYellow => 103,
        AsciiBackground::OnBrightBlue => 104,
        AsciiBackground::OnBrightMagenta => 105,
        AsciiBackground::OnBrightCyan => 106,
        AsciiBackground::OnBrightWhite => 107,
    }
}

/// The eight colours, in the order they are declared, have the consecutive terminal codes
/// 30 to 37; each bright colour's code is its colour's plus 60; the default is 39.
pub proof fn lemma_fore_codes_are_sgr()
    ensures
        fore_code(AsciiForeground::Black) == 30,
        fore_code(AsciiForeground::Red) == fore_code(AsciiForeground::Black) + 1,
        fore_code(AsciiForeground::Green) == fore_code(AsciiForeground::Red) + 1,
        fore_code(AsciiForeground::Yellow) == fore_code(AsciiForeground::Green) + 1,
        fore_code(AsciiForeground::Blue) == fore_code(AsciiForeground::Yellow) + 1,
        fore_code(AsciiForeground::Magenta) == fore_code(AsciiForeground::Blue) + 1,
        fore_code(AsciiForeground::Cyan) == fore_code(AsciiForeground::Magenta) + 1,
        fore_code(AsciiForeground::White) == fore_code(AsciiForeground::Cyan) + 1,
        fore_code(AsciiForeground::Default) == 39,
        fore_code(AsciiForeground::Reset) == 0,
        fore_code(AsciiForeground::BrightBlack) == fore_code(AsciiForeground::Black) + 60,
        fore_code(AsciiForeground::BrightRed) == fore_code(AsciiForeground::Red) + 60,
        fore_code(AsciiForeground::BrightGreen) == fore_code(AsciiForeground::Green) + 60,
        fore_code(AsciiForeground::BrightYellow) == fore_code(AsciiForeground::Yellow) + 60,
        fore_code(AsciiForeground::BrightBlue) == fore_code(AsciiForeground::Blue) + 60,
        fore_code(AsciiForeground::BrightMagenta) == fore_code(AsciiForeground::Magenta) + 60,
        fore_code(AsciiForeground::BrightCyan) == fore_code(AsciiForeground::Cyan) + 60,
        fore_code(AsciiForeground::BrightWhite) == fore_code(AsciiForeground::White) + 60,
{
}

/// Each background colour's code is the code of the same foreground colour plus 10.
pub proof fn lemma_back_codes_follow_fore()
    ensures
        back_code(AsciiBackground::OnBlack) == fore_code(AsciiForeground::Black) + 10,
        back_code(AsciiBackground::OnRed) == fore_code(AsciiForeground::Red) + 10,
        back_code(AsciiBackground::OnGreen) == fore_code(AsciiForeground::Green) + 10,
        back_code(AsciiBackground::OnYellow) == fore_code(AsciiForeground::Yellow) + 10,
        back_code(AsciiBackground::OnBlue) == fore_code(AsciiForeground::Blue) + 10,
        back_code(AsciiBackground::OnMagenta) == fore_code(AsciiForeground::Magenta) + 10,
        back_code(AsciiBackground::OnCyan) == fore_code(AsciiForeground::Cyan) + 10,
        back_code(AsciiBackground::OnWhite) == fore_code(AsciiForeground::White) + 10,
        back_code(AsciiBackground::OnDefault) == fore_code(AsciiForeground::Default) + 10,
        back_code(AsciiBackground::OnBrightBlack) == fore_code(AsciiForeground::BrightBlack) + 10,
        back_code(AsciiBackground::OnBrightRed) == fore_code(AsciiForeground::BrightRed) + 10,
        back_code(AsciiBackground::OnBrightGreen) == fore_code(AsciiForeground::BrightGreen) + 10,
        back_code(AsciiBackground::OnBrightYellow) == fore_code(AsciiForeground::BrightYellow) + 10,
        back_code(AsciiBackground::OnBrightBlue) == fore_code(AsciiForeground::BrightBlue) + 10,
        back_code(AsciiBackground::OnBrightMagenta) == fore_code(AsciiForeground::BrightMagenta)
            + 10,
        back_code(AsciiBackground::OnBrightCyan) == fore_code(AsciiForeground::BrightCyan) + 10,
        back_code(AsciiBackground::OnBrightWhite) == fore_code(AsciiForeground::BrightWhite) + 10,
{
}

impl AsciiForeground {
    /// The terminal code of the colour (255 for `Unset`).
    pub fn code(self) -> (r: u8)
        ensures
            r == fore_code(self),
    {
        match self {
            AsciiForeground::Unset => 255,
            AsciiForeground::Black => 30,
            AsciiForeground::Red => 31,
            AsciiForeground::Green => 32,
            AsciiForeground::Yellow => 33,
            AsciiForeground::Blue => 34,
            AsciiForeground::Magenta => 35,
            AsciiForeground::Cyan => 36,
            AsciiForeground::White => 37,
            AsciiForeground::Default => 39,
            AsciiForeground::Reset => 0,
            AsciiForeground::BrightBlack => 90,
            AsciiForeground::BrightRed => 91,
            AsciiForeground::BrightGreen => 92,
            AsciiForeground::BrightYellow => 93,
            AsciiForeground::BrightBlue => 94,
            AsciiForeground::BrightMagenta => 95,
            AsciiForeground::BrightCyan => 96,
            AsciiForeground::BrightWhite => 97,
        }
    }
}

impl AsciiBackground {
    /// The terminal code of the colour (255 for `Unset`).
    pub fn code(self) -> (r: u8)
        ensures
            r == back_code(self),
    {
        match self {
            AsciiBackground::Unset => 255,
            AsciiBackground::OnBlack => 40,
            AsciiBackground::OnRed => 41,
            AsciiBackground::OnGreen => 42,
            AsciiBackground::OnYellow => 43,
            AsciiBackground::OnBlue => 44,
            AsciiBackground::OnMagenta => 45,
            AsciiBackground::OnCyan => 46,
            AsciiBackground::OnWhite => 47,
            AsciiBackground::OnDefault => 49,
            AsciiBackground::OnBrightBlack => 100,
            AsciiBackground::OnBrightRed => 101,
            AsciiBackground::OnBrightGreen => 102,
            AsciiBackground::OnBrightYellow => 103,
            AsciiBackground::OnBrightBlue => 104,
            AsciiBackground::OnBrightMagenta => 105,
            AsciiBackground::OnBrightCyan => 106,
            AsciiBackground::OnBrightWhite => 107,
        }
    }
}

/// The decimal digits of `n` in ASCII.
pub open spec fn decimal(n: u8) -> Seq<u8> {
    if n >= 100 {
        seq![(48 + n / 100) as u8, (48 + (n / 10) % 10) as u8, (48 + n % 10) as u8]
    } else if n >= 10 {
        seq![(48 + n / 10) as u8, (48 + n % 10) as u8]
    } else {
        seq![(48 + n) as u8]
    }
}

/// The number that decimal digits in ASCII stand for.
pub open spec fn digits_value(s: Seq<u8>) -> int
    decreases s.len(),
{
    if s.len() == 0 {
        0
    } else {
        digits_value(s.drop_last()) * 10 + (s.last() - 48)
    }
}

/// The decimal form of a number is ASCII digits, without a leading zero, that read back as
/// the number.
pub proof fn lemma_decimal_reads_back(n: u8)
    ensures
        digits_value(decimal(n)) == n,
        forall|i: int| 0 <= i < decimal(n).len() ==> 48 <= #[trigger] decimal(n)[i] <= 57,
        decimal(n).len() > 1 ==> decimal(n)[0] != 48,
{
    let s = decimal(n);
    reveal_with_fuel(digits_value, 4);
    if n >= 100 {
        assert(s.drop_last().drop_last().drop_last() =~= Seq::<u8>::empty());
        assert(s.drop_last().drop_last() =~= seq![s[0]]);
        assert(s.drop_last() =~= seq![s[0], s[1]]);
        assert(n / 100 * 100 + (n / 10) % 10 * 10 + n % 10 == n) by (nonlinear_arith);
        assert(n / 100 <= 2) by (nonlinear_arith);
    } else if n >= 10 {
        assert(s.drop_last().drop_last() =~= Seq::<u8>::empty());
        assert(s.drop_last() =~= seq![s[0]]);
        assert(n / 10 * 10 + n % 10 == n) by (nonlinear_arith);
        assert(1 <= n / 10 <= 9) by (nonlinear_arith)
            requires
                10 <= n < 100,
        ;
    } else {
        assert(s.drop_last() =~= Seq::<u8>::empty());
    }
}

/// The digit that selects a text mode (nothing for `Unset`).
pub open spec fn mode_digits(m: AsciiMod) -> Seq<u8> {
    match m {
        AsciiMod::Unset => seq![],
        AsciiMod::Bold => seq![49u8],
        AsciiMod::Dim => seq![50u8],
        AsciiMod::Italic => seq![51u8],
        AsciiMod::Underline => seq![52u8],
        AsciiMod::Blinking => seq![53u8],
        AsciiMod::Inverse => seq![55u8],
        AsciiMod::Hidden => seq![56u8],
        AsciiMod::Strikethrough => seq![57u8],
    }
}

/// Each text mode is selected by one decimal digit, and the digits rise in the order the
/// modes are declared.
pub proof fn lemma_mode_digits_rise()
    ensures
        forall|m: AsciiMod| m != AsciiMod::Unset ==> #[trigger] mode_digits(m).len() == 1 && 48
            <= mode_digits(m)[0] <= 57,
        mode_digits(AsciiMod::Bold)[0] < mode_digits(AsciiMod::Dim)[0],
        mode_digits(AsciiMod::Dim)[0] < mode_digits(AsciiMod::Italic)[0],
        mode_digits(AsciiMod::Italic)[0] < mode_digits(AsciiMod::Underline)[0],
        mode_digits(AsciiMod::Underline)[0] < mode_digits(AsciiMod::Blinking)[0],
        mode_digits(AsciiMod::Blinking)[0] < mode_digits(AsciiMod::Inverse)[0],
        mode_digits(AsciiMod::Inverse)[0] < mode_digits(AsciiMod::Hidden)[0],
        mode_digits(AsciiMod::Hidden)[0] < mode_digits(AsciiMod::Strikethrough)[0],
{
}

/// What follows `[` when the text mode is turned off again.
pub open spec fn mode_reset(m: AsciiMod) -> Seq<u8> {
    match m {
        AsciiMod::Unset => seq![48u8, 109],
        AsciiMod::Bold => seq![50u8, 50, 59, 48, 109],
        AsciiMod::Dim => seq![50u8, 50, 59, 48, 109],
        AsciiMod::Italic => seq![50u8, 51, 59, 48, 109],
        AsciiMod::Underline => seq![50u8, 52, 59, 48, 109],
        AsciiMod::Blinking => seq![50u8, 53, 59, 48, 109],
        AsciiMod::Inverse => seq![50u8, 55, 59, 48, 109],
        AsciiMod::Hidden => seq![50u8, 56, 59, 48, 109],
        AsciiMod::Strikethrough => seq![50u8, 57, 59, 48, 109],
    }
}

/// Text wrapped in terminal styling.
pub struct Colorized<'a, T> {
    inner: &'a T,
    modify: AsciiMod,
    fore: AsciiForeground,
    back: AsciiBackground,
}

/// The bytes written before the text: `[`, the mode, the foreground code (after a `;` when
/// a mode was written), the background code (after a `;` when a foreground was written)
/// and `m`.
pub open spec fn style_prefix(m: AsciiMod, f: AsciiForeground, b: AsciiBackground) -> Seq<u8> {
    seq![91u8] + mode_digits(m) + (if f == AsciiForeground::Unset {
        seq![]
    } else {
        (if m != AsciiMod::Unset {
            seq![59u8]
        } else {
            seq![]
        }) + decimal(fore_code(f))
    }) + (if b == AsciiBackground::Unset {
        seq![]
    } else {
        (if f != AsciiForeground::Unset {
            seq![59u8]
        } else {
            seq![]
        }) + decimal(back_code(b))
    }) + seq![109u8]
}

fn push_decimal(out: &mut Vec<u8>, n: u8)
    ensures
        final(out)@ == old(out)@ + decimal(n),
{
    if n >= 100 {
        out.push(48 + n / 100);
        out.push(48 + (n / 10) % 10);
        out.push(48 + n % 10);
    } else if n >= 10 {
        out.push(48 + n / 10);
        out.push(48 + n % 10);
    } else {
        out.push(48 + n);
    }
    assert(final(out)@ =~= old(out)@ + decimal(n));
}

fn push_all(out: &mut Vec<u8>, s: &[u8])
    ensures
        final(out)@ == old(out)@ + s@,
{
    let mut i: usize = 0;
    let ghost start = out@;
    while i < s.len()
        invariant
            i <= s@.len(),
            out@ == start + s@.subrange(0, i as int),
        decreases s@.len() - i,
    {
        out.push(s[i]);
        i = i + 1;
        assert(out@ =~= start + s@.subrange(0, i as int));
    }
    assert(s@.subrange(0, s@.len() as int) =~= s@);
}

impl<'a, T> Colorized<'a, T> {
    /// The text mode.
    pub closed spec fn mode_of(&self) -> AsciiMod {
        self.modify
    }

    /// The foreground colour.
    pub closed spec fn fore_of(&self) -> AsciiForeground {
        self.fore
    }

    /// The background colour.
    pub closed spec fn back_of(&self) -> AsciiBackground {
        self.back
    }

    /// The text.
    pub closed spec fn inner_of(&self) -> &'a T {
        self.inner
    }

    /// `inner` with no styling.
    pub fn new(inner: &'a T) -> (r: Self)
        ensures
            r.inner_of() == inner,
            r.mode_of() == AsciiMod::Unset,
            r.fore_of() == AsciiForeground::Unset,
            r.back_of() == AsciiBackground::Unset,
    {
        Self {
            inner,
            modify: AsciiMod::Unset,
            fore: AsciiForeground::Unset,
            back: AsciiBackground::Unset,
        }
    }

    /// The same text in text mode `modify`.
    pub fn mode(self, modify: AsciiMod) -> (r: Self)
        ensures
            r.inner_of() == self.inner_of(),
            r.mode_of() == modify,
            r.fore_of() == self.fore_of(),
            r.back_of() == self.back_of(),
    {
        Self { modify, ..self }
    }

    /// The same text in foreground colour `fore`.
    pub fn foreground(self, fore: AsciiForeground) -> (r: Self)
        ensures
            r.inner_of() == self.inner_of(),
            r.mode_of() == self.mode_of(),
            r.fore_of() == fore,
            r.back_of() == self.back_of(),
    {
        Self { fore, ..self }
    }

    /// The same text in background colour `back`.
    pub fn background(self, back: AsciiBackground) -> (r: Self)
        ensures
            r.inner_of() == self.inner_of(),
            r.mode_of() == self.mode_of(),
            r.fore_of() == self.fore_of(),
            r.back_of() == back,
    {
        Self { back, ..self }
    }

    /// The text.
    pub fn inner(&self) -> (r: &'a T)
        ensures
            r == self.inner_of(),
    {
        self.inner
    }

    /// The text is written without any styling.
    pub fn is_plain(&self) -> (r: bool)
        ensures
            r == (self.mode_of() == AsciiMod::Unset && self.fore_of() == AsciiForeground::Unset
                && self.back_of() == AsciiBackground::Unset),
    {
        self.modify == AsciiMod::Unset && self.fore == AsciiForeground::Unset && self.back
            == AsciiBackground::Unset
    }

    /// The bytes written before the text (nothing for plain text).
    pub fn style_prefix(&self) -> (r: Vec<u8>)
        ensures
            self.mode_of() == AsciiMod::Unset && self.fore_of() == AsciiForeground::Unset
                && self.back_of() == AsciiBackground::Unset ==> r@ == Seq::<u8>::empty(),
            !(self.mode_of() == AsciiMod::Unset && self.fore_of() == AsciiForeground::Unset
                && self.back_of() == AsciiBackground::Unset) ==> r@ == style_prefix(
                self.mode_of(),
                self.fore_of(),
                self.back_of(),
            ),
    {
        let mut out: Vec<u8> = Vec::new();
        if self.is_plain() {
            return out;
        }
        out.push(91);
        match self.modify {
            AsciiMod::Unset => {},
            AsciiMod::Bold => out.push(49),
            AsciiMod::Dim => out.push(50),
            AsciiMod::Italic => out.push(51),
            AsciiMod::Underline => out.push(52),
            AsciiMod::Blinking => out.push(53),
            AsciiMod::Inverse => out.push(55),
            AsciiMod::Hidden => out.push(56),
            AsciiMod::Strikethrough => out.push(57),
        }
        let ghost after_mode = out@;
        assert(after_mode =~= seq![91u8] + mode_digits(self.modify));
        if self.fore != AsciiForeground::Unset {
            if self.modify != AsciiMod::Unset {
                out.push(59);
            }
            push_decimal(&mut out, self.fore.code());
        }
        let ghost after_fore = out@;
        if self.back != AsciiBackground::Unset {
            if self.fore != AsciiForeground::Unset {
                out.push(59);
            }
            push_decimal(&mut out, self.back.code());
        }
        out.push(109);
        assert(out@ =~= style_prefix(self.modify, self.fore, self.back));
        out
    }

    /// The bytes written after the text (nothing for plain text): `[` and the reset of the
    /// mode.
    pub fn style_suffix(&self) -> (r: Vec<u8>)
        ensures
            self.mode_of() == AsciiMod::Unset && self.fore_of() == AsciiForeground::Unset
                && self.back_of() == AsciiBackground::Unset ==> r@ == Seq::<u8>::empty(),
            !(self.mode_of() == AsciiMod::Unset && self.fore_of() == AsciiForeground::Unset
                && self.back_of() == AsciiBackground::Unset) ==> r@ == seq![91u8] + mode_reset(
                self.mode_of(),
            ),
    {
        let mut out: Vec<u8> = Vec::new();
        if self.is_plain() {
            return out;
        }
        out.push(91);
        let tail: &[u8] = match self.modify {
            AsciiMod::Unset => &[48, 109],
            AsciiMod::Bold => &[50, 50, 59, 48, 109],
            AsciiMod::Dim => &[50, 50, 59, 48, 109],
            AsciiMod::Italic => &[50, 51, 59, 48, 109],
            AsciiMod::Underline => &[50, 52, 59, 48, 109],
            AsciiMod::Blinking => &[50, 53, 59, 48, 109],
            AsciiMod::Inverse => &[50, 55, 59, 48, 109],
            AsciiMod::Hidden => &[50, 56, 59, 48, 109],
            AsciiMod::Strikethrough => &[50, 57, 59, 48, 109],
        };
        assert(tail@ =~= mode_reset(self.modify));
        push_all(&mut out, tail);
        out
    }
}

/// What the log writer does with one character of a message.
#[derive(Clone, Copy, Debug, PartialEq, Eq, Structural)]
pub enum PrettyAction {
    /// A newline: nothing is printed, and the next character opens a line.
    LineEnd,
    /// The first character of a line: print the line header, then the character.
    HeaderThenChar,
    /// Print the character.
    Char,
}

/// One step of the log writer: from whether a line header is due and the next
/// character, whether one is due afterwards and what to print.
pub fn pretty_step(needs_header: bool, c: char) -> (r: (bool, PrettyAction))
    ensures
        c == '\n' ==> r == (true, PrettyAction::LineEnd),
        c != '\n' && needs_header ==> r == (false, PrettyAction::HeaderThenChar),
        c != '\n' && !needs_header ==> r == (false, PrettyAction::Char),
{
    if c == '\n' {
        (true, PrettyAction::LineEnd)
    } else if needs_header {
        (false, PrettyAction::HeaderThenChar)
    } else {
        (false, PrettyAction::Char)
    }
}

} // verus!
