use vstd::prelude::*;
use vstd::string::StringSliceAdditionalSpecFns;

verus! {

/// The largest nesting measure (see `nesting_depth`) a configuration text
/// may have. The depth of the table that TOML builds from a text is at most
/// twice its measure plus two.
pub const MAX_DEPTH: usize = 256;

pub const HASH: u8 = 0x23;
pub const DQUOTE: u8 = 0x22;
pub const SQUOTE: u8 = 0x27;
pub const BACKSLASH: u8 = 0x5C;
pub const NEWLINE: u8 = 0x0A;
pub const DOT: u8 = 0x2E;

/// Where the scan of a TOML text stands, as TOML's lexer reads it. The flag
/// is `true` for a `"` string (with escapes), `false` for a `'` string.
#[derive(Clone, Copy, Debug, PartialEq, Eq, Structural)]
pub enum Mode {
    /// Outside strings and comments.
    Plain,
    /// In a `#` comment, up to the end of the line.
    Comment,
    /// After one opening quote.
    Open(bool),
    /// After two quotes: an empty string, or the start of a multi-line one.
    Open2(bool),
    /// In a one-line string.
    Line(bool),
    /// After a backslash in a one-line `"` string.
    LineEsc,
    /// In a multi-line string, after this many quotes in a row (0 to 2).
    Ml(bool, u8),
    /// After a backslash in a multi-line `"` string.
    MlEsc,
    /// Just after the closing quotes of a multi-line string, having taken
    /// this many of the at most two quotes that may still follow.
    End(bool, u8),
}

/// The scan's state: its mode, the open `[` and `{` outside strings, the
/// dots outside strings since a line began at the top level, and the
/// largest sum of these two so far.
pub struct ScanView {
    pub mode: Mode,
    pub depth: nat,
    pub dots: nat,
    pub peak: nat,
}

pub open spec fn quote(basic: bool) -> u8 {
    if basic { DQUOTE } else { SQUOTE }
}

pub open spec fn with_mode(s: ScanView, m: Mode) -> ScanView {
    ScanView { mode: m, depth: s.depth, dots: s.dots, peak: s.peak }
}

pub open spec fn raised(s: ScanView, depth: nat, dots: nat) -> ScanView {
    ScanView {
        mode: Mode::Plain,
        depth,
        dots,
        peak: if s.peak >= depth + dots { s.peak } else { depth + dots },
    }
}

/// One byte read outside strings and comments.
pub open spec fn plain_step(s: ScanView, c: u8) -> ScanView {
    if c == HASH {
        with_mode(s, Mode::Comment)
    } else if c == DQUOTE {
        with_mode(s, Mode::Open(true))
    } else if c == SQUOTE {
        with_mode(s, Mode::Open(false))
    } else if c == 0x5B || c == 0x7B {
        raised(s, s.depth + 1, s.dots)
    } else if c == 0x5D || c == 0x7D {
        with_mode(s, Mode::Plain).depth_down()
    } else if c == DOT {
        raised(s, s.depth, s.dots + 1)
    } else if c == NEWLINE && s.depth == 0 {
        ScanView { mode: Mode::Plain, depth: 0, dots: 0, peak: s.peak }
    } else {
        with_mode(s, Mode::Plain)
    }
}

impl ScanView {
    pub open spec fn depth_down(self) -> ScanView {
        ScanView { mode: self.mode, depth: if self.depth > 0 { (self.depth - 1) as nat } else { 0 }, dots: self.dots, peak: self.peak }
    }
}

/// One byte read in any mode.
pub open spec fn step(s: ScanView, c: u8) -> ScanView {
    match s.mode {
        Mode::Plain => plain_step(s, c),
        Mode::Comment => if c == NEWLINE { plain_step(with_mode(s, Mode::Plain), c) } else { s },
        Mode::Open(b) => if c == quote(b) {
            with_mode(s, Mode::Open2(b))
        } else if b && c == BACKSLASH {
            with_mode(s, Mode::LineEsc)
        } else {
            with_mode(s, Mode::Line(b))
        },
        Mode::Open2(b) => if c == quote(b) { with_mode(s, Mode::Ml(b, 0)) } else { plain_step(with_mode(s, Mode::Plain), c) },
        Mode::Line(b) => if c == quote(b) {
            with_mode(s, Mode::Plain)
        } else if b && c == BACKSLASH {
            with_mode(s, Mode::LineEsc)
        } else {
            s
        },
        Mode::LineEsc => with_mode(s, Mode::Line(true)),
        Mode::Ml(b, n) => if c == quote(b) {
            if n < 2 { with_mode(s, Mode::Ml(b, (n + 1) as u8)) } else { with_mode(s, Mode::End(b, 0)) }
        } else if b && c == BACKSLASH {
            with_mode(s, Mode::MlEsc)
        } else {
            with_mode(s, Mode::Ml(b, 0))
        },
        Mode::MlEsc => with_mode(s, Mode::Ml(true, 0)),
        Mode::End(b, k) => if c == quote(b) {
            if k == 0 { with_mode(s, Mode::End(b, 1)) } else { with_mode(s, Mode::Plain) }
        } else {
            plain_step(with_mode(s, Mode::Plain), c)
        },
    }
}

/// The state after reading all of `b`.
pub open spec fn scan(b: Seq<u8>) -> ScanView
    decreases b.len(),
{
    if b.len() == 0 {
        ScanView { mode: Mode::Plain, depth: 0, dots: 0, peak: 0 }
    } else {
        step(scan(b.drop_last()), b.last())
    }
}

/// The nesting measure of a text's bytes: the most brackets and braces
/// open, plus dots of keys (and numbers) in the statement, at any point
/// outside strings and comments.
pub open spec fn nesting_depth(b: Seq<u8>) -> nat {
    scan(b).peak
}

struct Scanner {
    mode: Mode,
    depth: usize,
    dots: usize,
    peak: usize,
}

impl View for Scanner {
    type V = ScanView;

    closed spec fn view(&self) -> ScanView {
        ScanView { mode: self.mode, depth: self.depth as nat, dots: self.dots as nat, peak: self.peak as nat }
    }
}

fn plain_next(s: Scanner, c: u8) -> (r: Scanner)
    requires
        s.depth + s.dots <= s.peak,
        s.peak < usize::MAX,
    ensures
        r@ == plain_step(s@, c),
        r.depth + r.dots <= r.peak,
        r.peak <= s.peak + 1,
{
    let s = Scanner { mode: Mode::Plain, ..s };
    if c == HASH {
        Scanner { mode: Mode::Comment, ..s }
    } else if c == DQUOTE {
        Scanner { mode: Mode::Open(true), ..s }
    } else if c == SQUOTE {
        Scanner { mode: Mode::Open(false), ..s }
    } else if c == 0x5B || c == 0x7B {
        let d = s.depth + 1;
        Scanner { mode: Mode::Plain, depth: d, dots: s.dots, peak: if s.peak >= d + s.dots { s.peak } else { d + s.dots } }
    } else if c == 0x5D || c == 0x7D {
        Scanner { depth: if s.depth > 0 { s.depth - 1 } else { 0 }, ..s }
    } else if c == DOT {
        let t = s.dots + 1;
        Scanner { mode: Mode::Plain, depth: s.depth, dots: t, peak: if s.peak >= s.depth + t { s.peak } else { s.depth + t } }
    } else if c == NEWLINE && s.depth == 0 {
        Scanner { mode: Mode::Plain, depth: 0, dots: 0, peak: s.peak }
    } else {
        s
    }
}

fn next(s: Scanner, c: u8) -> (r: Scanner)
    requires
        s.depth + s.dots <= s.peak,
        s.peak < usize::MAX,
    ensures
        r@ == step(s@, c),
        r.depth + r.dots <= r.peak,
        r.peak <= s.peak + 1,
{
    let q = |b: bool| -> (r: u8)
        ensures
            r == quote(b),
        { if b { DQUOTE } else { SQUOTE } };
    match s.mode {
        Mode::Plain => plain_next(s, c),
        Mode::Comment => if c == NEWLINE { plain_next(s, c) } else { s },
        Mode::Open(b) => if c == q(b) {
            Scanner { mode: Mode::Open2(b), ..s }
        } else if b && c == BACKSLASH {
            Scanner { mode: Mode::LineEsc, ..s }
        } else {
            Scanner { mode: Mode::Line(b), ..s }
        },
        Mode::Open2(b) => if c == q(b) { Scanner { mode: Mode::Ml(b, 0), ..s } } else { plain_next(s, c) },
        Mode::Line(b) => if c == q(b) {
            Scanner { mode: Mode::Plain, ..s }
        } else if b && c == BACKSLASH {
            Scanner { mode: Mode::LineEsc, ..s }
        } else {
            s
        },
        Mode::LineEsc => Scanner { mode: Mode::Line(true), ..s },
        Mode::Ml(b, n) => if c == q(b) {
            if n < 2 { Scanner { mode: Mode::Ml(b, n + 1), ..s } } else { Scanner { mode: Mode::End(b, 0), ..s } }
        } else if b && c == BACKSLASH {
            Scanner { mode: Mode::MlEsc, ..s }
        } else {
            Scanner { mode: Mode::Ml(b, 0), ..s }
        },
        Mode::MlEsc => Scanner { mode: Mode::Ml(true, 0), ..s },
        Mode::End(b, k) => if c == q(b) {
            if k == 0 { Scanner { mode: Mode::End(b, 1), ..s } } else { Scanner { mode: Mode::Plain, ..s } }
        } else {
            plain_next(s, c)
        },
    }
}

/// The nesting measure of `text` (see `nesting_depth`).
pub fn measure_nesting(text: &str) -> (r: usize)
    ensures
        r == nesting_depth(text.spec_bytes()),
{
    let b = text.as_bytes();
    let mut s = Scanner { mode: Mode::Plain, depth: 0, dots: 0, peak: 0 };
    let mut i: usize = 0;
    assert(b@.take(0) =~= Seq::<u8>::empty());
    while i < b.len()
        invariant
            i <= b@.len(),
            b@ == text.spec_bytes(),
            s.depth + s.dots <= s.peak,
            s.peak <= i,
            s@ == scan(b@.take(i as int)),
        decreases b@.len() - i,
    {
        assert(b@.take(i + 1).drop_last() =~= b@.take(i as int));
        s = next(s, b[i]);
        i += 1;
    }
    assert(b@.take(b@.len() as int) =~= b@);
    s.peak
}

} // verus!
