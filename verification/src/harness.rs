//! Development harness: play the game from a script instead of a terminal.
//!
//! A scenario is a line-oriented script (keys, elapsed time, capture points,
//! expectations) run against the same `App` the binary drives, so what it
//! reaches is what a player would have reached. This module parses scripts,
//! runs their steps and judges their expectations; drawing a captured frame
//! belongs to the renderer outside it.

use vstd::prelude::*;
use vstd::string::{StrSliceExecFns, StringExecFns};

use crate::app::{App, Key, Phase, FRAME_INTERVAL_MS};
use crate::engine::params::Params;
use crate::engine::state::State;
use crate::scan::{chars_vec, find_char, find_char_in, lemma_find_char, text_lines, trim_range, trimmed, word_ranges, words};
use crate::text::{append_dec, chars_of, dec, parse_at_most, parse_u128_in};

verus! {

/// A parsed scenario: the steps to run, in order.
#[derive(Clone, PartialEq, Eq, Debug)]
pub struct Scenario {
    pub steps: Vec<Step>,
}

/// One scenario line: something a player does (resize, press a key, let time
/// pass) or something the harness does at that moment (set the render's
/// time-of-day input, capture the frame, check the reached state).
#[derive(Clone, PartialEq, Eq, Debug)]
pub enum Step {
    Resize { width: u16, height: u16 },
    Key(Key),
    Wait { ms: u64 },
    Phase(Phase),
    Capture { label: String },
    Expect(Expectation),
}

/// State field an expectation reads. Every field yields an integer (`started`
/// as 0/1), so one comparison rule covers them all.
#[derive(Clone, Copy, PartialEq, Eq, Debug, Structural)]
pub enum Field {
    Score,
    Currency,
    Collectable,
    Reefs,
    Started,
}

#[derive(Clone, Copy, PartialEq, Eq, Debug, Structural)]
pub enum Op {
    Eq,
    AtLeast,
    AtMost,
}

pub open spec fn spec_holds(op: Op, actual: u128, value: u128) -> bool {
    match op {
        Op::Eq => actual == value,
        Op::AtLeast => actual >= value,
        Op::AtMost => actual <= value,
    }
}

impl Op {
    /// Whether `actual` compares to `value` as this operator asks.
    pub fn holds(self, actual: u128, value: u128) -> (b: bool)
        ensures
            b == spec_holds(self, actual, value),
    {
        match self {
            Op::Eq => actual == value,
            Op::AtLeast => actual >= value,
            Op::AtMost => actual <= value,
        }
    }
}

/// One `expect` line: what to read, how to compare it, and where it was
/// written (the line and its text, so a failure points back at the script).
#[derive(Clone, PartialEq, Eq, Debug)]
pub struct Expectation {
    pub line: usize,
    pub source: String,
    pub field: Field,
    pub op: Op,
    pub value: u128,
}

/// An expectation after it ran: what the state held, and whether that
/// satisfied it.
#[derive(Clone, PartialEq, Eq, Debug)]
pub struct Check {
    pub expectation: Expectation,
    pub actual: u128,
    pub passed: bool,
}

/// One captured frame: the label it was taken under, the size it was drawn
/// at, and the frame serialized as ANSI text.
#[derive(Clone, PartialEq, Eq, Debug)]
pub struct Capture {
    pub label: String,
    pub width: u16,
    pub height: u16,
    pub ansi: String,
}

/// Everything a run produced: the app as the scenario left it, the frames it
/// captured, and the verdict of every expectation it met on the way.
pub struct Outcome {
    pub app: App,
    pub captures: Vec<Capture>,
    pub checks: Vec<Check>,
}

impl Outcome {
    /// Whether every expectation the run met was satisfied.
    pub fn all_passed(&self) -> (b: bool)
        ensures
            b == forall|i: int| 0 <= i < self.checks@.len() ==> (#[trigger] self.checks@[i]).passed,
    {
        let mut i: usize = 0;
        while i < self.checks.len()
            invariant
                i <= self.checks@.len(),
                forall|j: int| 0 <= j < i ==> (#[trigger] self.checks@[j]).passed,
            decreases self.checks@.len() - i,
        {
            if !self.checks[i].passed {
                return false;
            }
            i += 1;
        }
        true
    }
}

/// A malformed scenario. `line` is the line it was found on, or `None` when
/// the fault is the file as a whole (an empty scenario).
#[derive(Clone, PartialEq, Eq, Debug)]
pub struct ParseError {
    pub line: Option<usize>,
    pub message: String,
}

impl ParseError {
    /// The error as it is shown: `line N: message`, or the bare message when
    /// no line is to blame.
    pub fn to_text(&self) -> (t: String)
        ensures
            t@ == match self.line {
                Some(n) => "line "@ + chars_of(dec(n as nat)) + ": "@ + self.message@,
                None => self.message@,
            },
    {
        match self.line {
            Some(n) => {
                let mut t = String::from_str("line ");
                append_dec(&mut t, n as u128);
                t.append(": ");
                t.append(self.message.as_str());
                t
            },
            None => String::from_str(self.message.as_str()),
        }
    }
}

// ---------------------------------------------------------------------------
// What a script means, as character sequences.
// ---------------------------------------------------------------------------

pub struct ExpectationView {
    pub line: usize,
    pub source: Seq<char>,
    pub field: Field,
    pub op: Op,
    pub value: u128,
}

pub enum StepView {
    Resize { width: u16, height: u16 },
    Key(Key),
    Wait { ms: u64 },
    Phase(Phase),
    Capture { label: Seq<char> },
    Expect(ExpectationView),
}

impl View for Expectation {
    type V = ExpectationView;

    open spec fn view(&self) -> ExpectationView {
        ExpectationView {
            line: self.line,
            source: self.source@,
            field: self.field,
            op: self.op,
            value: self.value,
        }
    }
}

impl View for Step {
    type V = StepView;

    open spec fn view(&self) -> StepView {
        match self {
            Step::Resize { width, height } => StepView::Resize { width: *width, height: *height },
            Step::Key(k) => StepView::Key(*k),
            Step::Wait { ms } => StepView::Wait { ms: *ms },
            Step::Phase(p) => StepView::Phase(*p),
            Step::Capture { label } => StepView::Capture { label: label@ },
            Step::Expect(e) => StepView::Expect(e@),
        }
    }
}

pub open spec fn steps_view(steps: Seq<Step>) -> Seq<StepView> {
    steps.map_values(|s: Step| s@)
}

/// A token's characters as the bytes an integer parser reads: ASCII as is,
/// anything else as a byte no number contains.
pub open spec fn ascii_of(t: Seq<char>) -> Seq<u8> {
    t.map_values(|c: char| if (c as u32) < 128 { c as u8 } else { 255u8 })
}

/// A token as Rust reads an unsigned integer no greater than `max`.
pub open spec fn number_of(t: Seq<char>, max: nat) -> Option<nat> {
    parse_at_most(ascii_of(t), max)
}

/// `<W>x<H>`, both positive.
pub open spec fn size_of(t: Seq<char>) -> Result<(u16, u16), Seq<char>> {
    let x = find_char(t, 'x');
    let malformed = "resize needs a size like 100x30: "@ + t;
    if x >= t.len() {
        Err(malformed)
    } else {
        match (number_of(t.take(x), u16::MAX as nat), number_of(t.skip(x + 1), u16::MAX as nat)) {
            (Some(w), Some(h)) => if w == 0 || h == 0 {
                Err("resize needs a pane with area: "@ + t)
            } else {
                Ok((w as u16, h as u16))
            },
            _ => Err(malformed),
        }
    }
}

/// A key token: a name for a key without a glyph, or a single character.
pub open spec fn key_of(t: Seq<char>) -> Option<Key> {
    if t == "space"@ {
        Some(Key::Char(' '))
    } else if t == "enter"@ {
        Some(Key::Enter)
    } else if t == "esc"@ {
        Some(Key::Esc)
    } else if t == "left"@ {
        Some(Key::Left)
    } else if t == "right"@ {
        Some(Key::Right)
    } else if t == "up"@ {
        Some(Key::Up)
    } else if t == "down"@ {
        Some(Key::Down)
    } else if t == "backspace"@ {
        Some(Key::Backspace)
    } else if t.len() == 1 {
        Some(Key::Char(t[0]))
    } else {
        None
    }
}

pub open spec fn phase_of(t: Seq<char>) -> Option<Phase> {
    if t == "dawn"@ {
        Some(Phase::Dawn)
    } else if t == "day"@ {
        Some(Phase::Day)
    } else if t == "dusk"@ {
        Some(Phase::Dusk)
    } else if t == "night"@ {
        Some(Phase::Night)
    } else {
        None
    }
}

pub open spec fn field_of(t: Seq<char>) -> Option<Field> {
    if t == "score"@ {
        Some(Field::Score)
    } else if t == "currency"@ {
        Some(Field::Currency)
    } else if t == "collectable"@ {
        Some(Field::Collectable)
    } else if t == "reefs"@ {
        Some(Field::Reefs)
    } else if t == "started"@ {
        Some(Field::Started)
    } else {
        None
    }
}

pub open spec fn op_of(t: Seq<char>) -> Option<Op> {
    if t == "=="@ {
        Some(Op::Eq)
    } else if t == ">="@ {
        Some(Op::AtLeast)
    } else if t == "<="@ {
        Some(Op::AtMost)
    } else {
        None
    }
}

/// `expect <field> <op> <value>`, except that the boolean field spells its
/// value on its own (`expect started true`); with how many words it used.
pub open spec fn expectation_of(ws: Seq<Seq<char>>, line: usize, body: Seq<char>) -> Result<
    (ExpectationView, int),
    Seq<char>,
> {
    if ws.len() < 2 {
        Err("expect needs a field"@)
    } else {
        match field_of(ws[1]) {
            None => Err("expect: unknown field: "@ + ws[1]),
            Some(f) => if f == Field::Started {
                if ws.len() < 3 {
                    Err("expect started needs true or false"@)
                } else if ws[2] == "true"@ {
                    Ok((ExpectationView { line, source: body, field: f, op: Op::Eq, value: 1 }, 3))
                } else if ws[2] == "false"@ {
                    Ok((ExpectationView { line, source: body, field: f, op: Op::Eq, value: 0 }, 3))
                } else {
                    Err("expect started: takes true or false, with no operator: "@ + ws[2])
                }
            } else if ws.len() < 3 {
                Err("expect needs an operator (==, >= or <=)"@)
            } else {
                match op_of(ws[2]) {
                    None => Err("expect: unknown operator: "@ + ws[2] + " (==, >= or <=)"@),
                    Some(op) => if ws.len() < 4 {
                        Err("expect needs a value"@)
                    } else {
                        match number_of(ws[3], u128::MAX as nat) {
                            None => Err("expect: not a number: "@ + ws[3]),
                            Some(v) => Ok(
                                (ExpectationView { line, source: body, field: f, op, value: v as u128 }, 4),
                            ),
                        }
                    },
                }
            },
        }
    }
}

/// The step a line's words spell, with how many words it used, or what is
/// wrong with them.
pub open spec fn step_of(ws: Seq<Seq<char>>, line: usize, body: Seq<char>) -> Result<(StepView, int), Seq<char>> {
    let cmd = ws[0];
    if cmd == "resize"@ {
        if ws.len() < 2 {
            Err("resize needs a size like 100x30"@)
        } else {
            match size_of(ws[1]) {
                Ok((w, h)) => Ok((StepView::Resize { width: w, height: h }, 2)),
                Err(m) => Err(m),
            }
        }
    } else if cmd == "key"@ {
        if ws.len() < 2 {
            Err("key needs a key token"@)
        } else {
            match key_of(ws[1]) {
                Some(k) => Ok((StepView::Key(k), 2)),
                None => Err("key: unknown key token: "@ + ws[1]),
            }
        }
    } else if cmd == "wait"@ {
        if ws.len() < 2 {
            Err("wait needs a number"@)
        } else {
            match number_of(ws[1], u64::MAX as nat) {
                Some(v) => Ok((StepView::Wait { ms: v as u64 }, 2)),
                None => Err("wait: not a number: "@ + ws[1]),
            }
        }
    } else if cmd == "phase"@ {
        if ws.len() < 2 {
            Err("phase needs a name"@)
        } else {
            match phase_of(ws[1]) {
                Some(p) => Ok((StepView::Phase(p), 2)),
                None => Err("phase: unknown phase: "@ + ws[1] + " (dawn, day, dusk or night)"@),
            }
        }
    } else if cmd == "capture"@ {
        if ws.len() < 2 {
            Err("capture needs a label"@)
        } else {
            Ok((StepView::Capture { label: ws[1] }, 2))
        }
    } else if cmd == "expect"@ {
        match expectation_of(ws, line, body) {
            Ok((e, used)) => Ok((StepView::Expect(e), used)),
            Err(m) => Err(m),
        }
    } else {
        Err("unknown command: "@ + cmd)
    }
}

pub enum LineOutcome {
    Blank,
    Step(StepView),
    Fail(Seq<char>),
}

/// What line number `line` of a script means. Everything from `#` on is a
/// comment; a line with no words is blank; the first step has to be a
/// resize, so no frame size is ever implicit; and a word left over means the
/// line was not the one its author thought.
pub open spec fn line_outcome(l: Seq<char>, line: usize, first: bool) -> LineOutcome {
    let cut = l.take(find_char(l, '#'));
    let ws = words(cut);
    if ws.len() == 0 {
        LineOutcome::Blank
    } else if first && ws[0] != "resize"@ {
        LineOutcome::Fail(
            "a scenario must begin with `resize <W>x<H>`, so the frame size it captures is never implicit"@,
        )
    } else {
        match step_of(ws, line, trimmed(cut)) {
            Err(m) => LineOutcome::Fail(m),
            Ok((s, used)) => if used < ws.len() {
                LineOutcome::Fail(ws[0] + ": unexpected extra token: "@ + ws[used])
            } else {
                LineOutcome::Step(s)
            },
        }
    }
}

/// Reading lines `i..` of a script after `steps`: the steps, or the first
/// malformed line and what is wrong with it.
pub open spec fn scenario_from(ls: Seq<Seq<char>>, i: int, steps: Seq<StepView>) -> Result<
    Seq<StepView>,
    (Option<usize>, Seq<char>),
>
    decreases ls.len() - i,
{
    if i < 0 || i >= ls.len() {
        if steps.len() == 0 {
            Err(
                (
                    None,
                    "a scenario needs at least one step, beginning with `resize <W>x<H>`"@,
                ),
            )
        } else {
            Ok(steps)
        }
    } else {
        match line_outcome(ls[i], (i + 1) as usize, steps.len() == 0) {
            LineOutcome::Blank => scenario_from(ls, i + 1, steps),
            LineOutcome::Step(s) => scenario_from(ls, i + 1, steps.push(s)),
            LineOutcome::Fail(m) => Err((Some((i + 1) as usize), m)),
        }
    }
}

/// What a script means: its steps, or its first fault.
pub open spec fn scenario_outcome(t: Seq<char>) -> Result<Seq<StepView>, (Option<usize>, Seq<char>)> {
    scenario_from(text_lines(t), 0, seq![])
}


// ---------------------------------------------------------------------------
// Reading a script.
// ---------------------------------------------------------------------------

/// The words of a line, given as index ranges into its characters.
pub open spec fn toks(cs: Seq<char>, ws: Seq<(usize, usize)>) -> Seq<Seq<char>> {
    ws.map_values(|r: (usize, usize)| cs.subrange(r.0 as int, r.1 as int))
}

pub open spec fn ranges_in(ws: Seq<(usize, usize)>, n: int) -> bool {
    forall|j: int| 0 <= j < ws.len() ==> (#[trigger] ws[j]).0 <= ws[j].1 <= n
}

/// Whether `cs[lo..hi]` holds exactly the characters of `lit`.
fn range_is(cs: &Vec<char>, lo: usize, hi: usize, lit: &str) -> (b: bool)
    requires
        lo <= hi <= cs@.len(),
    ensures
        b == (cs@.subrange(lo as int, hi as int) == lit@),
{
    let n = lit.unicode_len();
    if hi - lo != n {
        return false;
    }
    let mut i: usize = 0;
    while i < n
        invariant
            n == lit@.len(),
            hi - lo == n,
            lo <= hi <= cs@.len(),
            i <= n,
            forall|j: int| 0 <= j < i ==> cs@[lo + j] == lit@[j],
        decreases n - i,
    {
        if cs[lo + i] != lit.get_char(i) {
            assert(cs@.subrange(lo as int, hi as int)[i as int] != lit@[i as int]);
            return false;
        }
        i += 1;
    }
    assert(cs@.subrange(lo as int, hi as int) =~= lit@);
    true
}

/// `a` then `b`.
fn join2(a: &str, b: &str) -> (m: String)
    ensures
        m@ == a@ + b@,
{
    let mut m = String::from_str(a);
    m.append(b);
    m
}

/// `a`, then `b`, then `c`.
fn join3(a: &str, b: &str, c: &str) -> (m: String)
    ensures
        m@ == a@ + b@ + c@,
{
    let mut m = String::from_str(a);
    m.append(b);
    m.append(c);
    m
}

/// `cs[lo..hi]` read as an unsigned number no greater than `u128::MAX`.
fn number_in(cs: &Vec<char>, lo: usize, hi: usize) -> (r: Option<u128>)
    requires
        lo <= hi <= cs@.len(),
    ensures
        r == match number_of(cs@.subrange(lo as int, hi as int), u128::MAX as nat) {
            Some(n) => Some(n as u128),
            None => None,
        },
{
    let mut bytes: Vec<u8> = Vec::new();
    let mut i = lo;
    while i < hi
        invariant
            lo <= i <= hi <= cs@.len(),
            bytes@ == ascii_of(cs@.subrange(lo as int, i as int)),
        decreases hi - i,
    {
        let c = cs[i];
        let b: u8 = if (c as u32) < 128 {
            c as u8
        } else {
            255
        };
        bytes.push(b);
        assert(ascii_of(cs@.subrange(lo as int, i + 1)) =~= ascii_of(cs@.subrange(lo as int, i as int)).push(b));
        i += 1;
    }
    let n = bytes.len();
    assert(bytes@.subrange(0, n as int) =~= bytes@);
    parse_u128_in(bytes.as_slice(), 0, n)
}

/// `cs[lo..hi]` read as an unsigned number no greater than `max`.
fn number_at_most(cs: &Vec<char>, lo: usize, hi: usize, max: u128) -> (r: Option<u128>)
    requires
        lo <= hi <= cs@.len(),
    ensures
        r == match number_of(cs@.subrange(lo as int, hi as int), max as nat) {
            Some(n) => Some(n as u128),
            None => None,
        },
{
    match number_in(cs, lo, hi) {
        Some(v) => if v <= max {
            Some(v)
        } else {
            None
        },
        None => None,
    }
}

/// `<W>x<H>`, both positive: a zero-column pane draws nothing, which is a
/// mistake rather than a picture.
fn parse_size(text: &str, cs: &Vec<char>, lo: usize, hi: usize) -> (r: Result<(u16, u16), String>)
    requires
        text@ == cs@,
        lo <= hi <= cs@.len(),
    ensures
        match r {
            Ok(wh) => size_of(cs@.subrange(lo as int, hi as int)) == Ok::<(u16, u16), Seq<char>>(wh),
            Err(m) => size_of(cs@.subrange(lo as int, hi as int)) == Err::<(u16, u16), Seq<char>>(m@),
        },
{
    let ghost t = cs@.subrange(lo as int, hi as int);
    let token = text.substring_char(lo, hi);
    let x = find_char_in(cs, lo, hi, 'x');
    if x >= hi {
        return Err(join2("resize needs a size like 100x30: ", token));
    }
    proof {
        assert(t.take(x - lo) =~= cs@.subrange(lo as int, x as int));
        assert(t.skip(x - lo + 1) =~= cs@.subrange(x + 1, hi as int));
    }
    let width = match number_at_most(cs, lo, x, u16::MAX as u128) {
        Some(w) => w,
        None => {
            return Err(join2("resize needs a size like 100x30: ", token));
        },
    };
    let height = match number_at_most(cs, x + 1, hi, u16::MAX as u128) {
        Some(h) => h,
        None => {
            return Err(join2("resize needs a size like 100x30: ", token));
        },
    };
    if width == 0 || height == 0 {
        return Err(join2("resize needs a pane with area: ", token));
    }
    Ok((width as u16, height as u16))
}

/// A visible single character (`n`, `1`, ...) or a name for a key that has no
/// glyph. Modifiers are not spelled: nothing but quit reads them.
fn parse_key(cs: &Vec<char>, lo: usize, hi: usize) -> (k: Option<Key>)
    requires
        lo <= hi <= cs@.len(),
    ensures
        k == key_of(cs@.subrange(lo as int, hi as int)),
{
    if range_is(cs, lo, hi, "space") {
        Some(Key::Char(' '))
    } else if range_is(cs, lo, hi, "enter") {
        Some(Key::Enter)
    } else if range_is(cs, lo, hi, "esc") {
        Some(Key::Esc)
    } else if range_is(cs, lo, hi, "left") {
        Some(Key::Left)
    } else if range_is(cs, lo, hi, "right") {
        Some(Key::Right)
    } else if range_is(cs, lo, hi, "up") {
        Some(Key::Up)
    } else if range_is(cs, lo, hi, "down") {
        Some(Key::Down)
    } else if range_is(cs, lo, hi, "backspace") {
        Some(Key::Backspace)
    } else if hi - lo == 1 {
        Some(Key::Char(cs[lo]))
    } else {
        None
    }
}

fn parse_phase(cs: &Vec<char>, lo: usize, hi: usize) -> (p: Option<Phase>)
    requires
        lo <= hi <= cs@.len(),
    ensures
        p == phase_of(cs@.subrange(lo as int, hi as int)),
{
    if range_is(cs, lo, hi, "dawn") {
        Some(Phase::Dawn)
    } else if range_is(cs, lo, hi, "day") {
        Some(Phase::Day)
    } else if range_is(cs, lo, hi, "dusk") {
        Some(Phase::Dusk)
    } else if range_is(cs, lo, hi, "night") {
        Some(Phase::Night)
    } else {
        None
    }
}

fn parse_field(cs: &Vec<char>, lo: usize, hi: usize) -> (f: Option<Field>)
    requires
        lo <= hi <= cs@.len(),
    ensures
        f == field_of(cs@.subrange(lo as int, hi as int)),
{
    if range_is(cs, lo, hi, "score") {
        Some(Field::Score)
    } else if range_is(cs, lo, hi, "currency") {
        Some(Field::Currency)
    } else if range_is(cs, lo, hi, "collectable") {
        Some(Field::Collectable)
    } else if range_is(cs, lo, hi, "reefs") {
        Some(Field::Reefs)
    } else if range_is(cs, lo, hi, "started") {
        Some(Field::Started)
    } else {
        None
    }
}

fn parse_op(cs: &Vec<char>, lo: usize, hi: usize) -> (o: Option<Op>)
    requires
        lo <= hi <= cs@.len(),
    ensures
        o == op_of(cs@.subrange(lo as int, hi as int)),
{
    if range_is(cs, lo, hi, "==") {
        Some(Op::Eq)
    } else if range_is(cs, lo, hi, ">=") {
        Some(Op::AtLeast)
    } else if range_is(cs, lo, hi, "<=") {
        Some(Op::AtMost)
    } else {
        None
    }
}

/// `expect <field> <op> <value>`, except that the boolean field spells its
/// value on its own: `expect started true`. The value's form follows the
/// field, so a number where a boolean belongs is caught rather than coerced.
fn parse_expectation(
    text: &str,
    cs: &Vec<char>,
    ws: &Vec<(usize, usize)>,
    line: usize,
    bs: usize,
    be: usize,
) -> (r: Result<(Expectation, usize), String>)
    requires
        text@ == cs@,
        ranges_in(ws@, cs@.len() as int),
        bs <= be <= cs@.len(),
    ensures
        match r {
            Ok((e, used)) => expectation_of(toks(cs@, ws@), line, cs@.subrange(bs as int, be as int))
                == Ok::<(ExpectationView, int), Seq<char>>((e@, used as int)),
            Err(m) => expectation_of(toks(cs@, ws@), line, cs@.subrange(bs as int, be as int))
                == Err::<(ExpectationView, int), Seq<char>>(m@),
        },
{
    let ghost w = toks(cs@, ws@);
    if ws.len() < 2 {
        return Err(String::from_str("expect needs a field"));
    }
    let (f0, f1) = ws[1];
    assert(w[1] == cs@.subrange(f0 as int, f1 as int));
    let field = match parse_field(cs, f0, f1) {
        Some(f) => f,
        None => {
            return Err(join2("expect: unknown field: ", text.substring_char(f0, f1)));
        },
    };
    let source = String::from_str(text.substring_char(bs, be));
    if field == Field::Started {
        if ws.len() < 3 {
            return Err(String::from_str("expect started needs true or false"));
        }
        let (v0, v1) = ws[2];
        assert(w[2] == cs@.subrange(v0 as int, v1 as int));
        let value: u128 = if range_is(cs, v0, v1, "true") {
            1
        } else if range_is(cs, v0, v1, "false") {
            0
        } else {
            return Err(
                join2(
                    "expect started: takes true or false, with no operator: ",
                    text.substring_char(v0, v1),
                ),
            );
        };
        return Ok((Expectation { line, source, field, op: Op::Eq, value }, 3));
    }
    if ws.len() < 3 {
        return Err(String::from_str("expect needs an operator (==, >= or <=)"));
    }
    let (o0, o1) = ws[2];
    assert(w[2] == cs@.subrange(o0 as int, o1 as int));
    let op = match parse_op(cs, o0, o1) {
        Some(o) => o,
        None => {
            return Err(
                join3("expect: unknown operator: ", text.substring_char(o0, o1), " (==, >= or <=)"),
            );
        },
    };
    if ws.len() < 4 {
        return Err(String::from_str("expect needs a value"));
    }
    let (n0, n1) = ws[3];
    assert(w[3] == cs@.subrange(n0 as int, n1 as int));
    let value = match number_in(cs, n0, n1) {
        Some(v) => v,
        None => {
            return Err(join2("expect: not a number: ", text.substring_char(n0, n1)));
        },
    };
    Ok((Expectation { line, source, field, op, value }, 4))
}

/// The step a line's words spell, with how many words it used.
fn parse_step(
    text: &str,
    cs: &Vec<char>,
    ws: &Vec<(usize, usize)>,
    line: usize,
    bs: usize,
    be: usize,
) -> (r: Result<(Step, usize), String>)
    requires
        text@ == cs@,
        ws@.len() > 0,
        ranges_in(ws@, cs@.len() as int),
        bs <= be <= cs@.len(),
    ensures
        match r {
            Ok((s, used)) => step_of(toks(cs@, ws@), line, cs@.subrange(bs as int, be as int))
                == Ok::<(StepView, int), Seq<char>>((s@, used as int)),
            Err(m) => step_of(toks(cs@, ws@), line, cs@.subrange(bs as int, be as int))
                == Err::<(StepView, int), Seq<char>>(m@),
        },
{
    let ghost w = toks(cs@, ws@);
    let (c0, c1) = ws[0];
    assert(w[0] == cs@.subrange(c0 as int, c1 as int));
    if range_is(cs, c0, c1, "resize") {
        if ws.len() < 2 {
            return Err(String::from_str("resize needs a size like 100x30"));
        }
        let (t0, t1) = ws[1];
        assert(w[1] == cs@.subrange(t0 as int, t1 as int));
        match parse_size(text, cs, t0, t1) {
            Ok((width, height)) => Ok((Step::Resize { width, height }, 2)),
            Err(m) => Err(m),
        }
    } else if range_is(cs, c0, c1, "key") {
        if ws.len() < 2 {
            return Err(String::from_str("key needs a key token"));
        }
        let (t0, t1) = ws[1];
        assert(w[1] == cs@.subrange(t0 as int, t1 as int));
        match parse_key(cs, t0, t1) {
            Some(k) => Ok((Step::Key(k), 2)),
            None => Err(join2("key: unknown key token: ", text.substring_char(t0, t1))),
        }
    } else if range_is(cs, c0, c1, "wait") {
        if ws.len() < 2 {
            return Err(String::from_str("wait needs a number"));
        }
        let (t0, t1) = ws[1];
        assert(w[1] == cs@.subrange(t0 as int, t1 as int));
        match number_at_most(cs, t0, t1, u64::MAX as u128) {
            Some(v) => Ok((Step::Wait { ms: v as u64 }, 2)),
            None => Err(join2("wait: not a number: ", text.substring_char(t0, t1))),
        }
    } else if range_is(cs, c0, c1, "phase") {
        if ws.len() < 2 {
            return Err(String::from_str("phase needs a name"));
        }
        let (t0, t1) = ws[1];
        assert(w[1] == cs@.subrange(t0 as int, t1 as int));
        match parse_phase(cs, t0, t1) {
            Some(p) => Ok((Step::Phase(p), 2)),
            None => Err(
                join3("phase: unknown phase: ", text.substring_char(t0, t1), " (dawn, day, dusk or night)"),
            ),
        }
    } else if range_is(cs, c0, c1, "capture") {
        if ws.len() < 2 {
            return Err(String::from_str("capture needs a label"));
        }
        let (t0, t1) = ws[1];
        assert(w[1] == cs@.subrange(t0 as int, t1 as int));
        Ok((Step::Capture { label: String::from_str(text.substring_char(t0, t1)) }, 2))
    } else if range_is(cs, c0, c1, "expect") {
        match parse_expectation(text, cs, ws, line, bs, be) {
            Ok((e, used)) => Ok((Step::Expect(e), used)),
            Err(m) => Err(m),
        }
    } else {
        Err(join2("unknown command: ", text.substring_char(c0, c1)))
    }
}


/// What reading one line gave.
enum LineResult {
    Blank,
    Step(Step),
    Fail(String),
}

spec fn line_view(r: LineResult) -> LineOutcome {
    match r {
        LineResult::Blank => LineOutcome::Blank,
        LineResult::Step(s) => LineOutcome::Step(s@),
        LineResult::Fail(m) => LineOutcome::Fail(m@),
    }
}

/// Read line number `line`, the characters `cs[lo..hi]`.
fn parse_line(text: &str, cs: &Vec<char>, lo: usize, hi: usize, line: usize, first: bool) -> (r: LineResult)
    requires
        text@ == cs@,
        lo <= hi <= cs@.len(),
    ensures
        line_view(r) == line_outcome(cs@.subrange(lo as int, hi as int), line, first),
{
    let ghost l = cs@.subrange(lo as int, hi as int);
    // Everything from '#' on is a comment, so a step can carry its reason.
    let c = find_char_in(cs, lo, hi, '#');
    proof {
        assert(l.take(find_char(l, '#')) =~= cs@.subrange(lo as int, c as int));
    }
    let ws = word_ranges(cs, lo, c);
    let ghost cut = cs@.subrange(lo as int, c as int);
    proof {
        assert(toks(cs@, ws@) =~= words(cut));
    }
    if ws.len() == 0 {
        return LineResult::Blank;
    }
    let (c0, c1) = ws[0];
    assert(words(cut)[0] == cs@.subrange(c0 as int, c1 as int));
    // The frame size is the whole point of a capture, so no scenario gets an
    // implicit one: the first step has to name it.
    if first && !range_is(cs, c0, c1, "resize") {
        return LineResult::Fail(
            String::from_str(
                "a scenario must begin with `resize <W>x<H>`, so the frame size it captures is never implicit",
            ),
        );
    }
    let (bs, be) = trim_range(cs, lo, c);
    match parse_step(text, cs, &ws, line, bs, be) {
        Err(m) => LineResult::Fail(m),
        Ok((s, used)) => {
            if used < ws.len() {
                // A leftover token means the line was not the one its author
                // thought.
                let (e0, e1) = ws[used];
                assert(words(cut)[used as int] == cs@.subrange(e0 as int, e1 as int));
                LineResult::Fail(
                    join3(
                        text.substring_char(c0, c1),
                        ": unexpected extra token: ",
                        text.substring_char(e0, e1),
                    ),
                )
            } else {
                LineResult::Step(s)
            }
        },
    }
}

/// Parse a scenario. A malformed line is the author's mistake, so it surfaces
/// as an error naming the line rather than being skipped: a scenario that
/// half-ran would produce a picture of something nobody asked for.
pub fn parse(text: &str) -> (r: Result<Scenario, ParseError>)
    ensures
        match r {
            Ok(sc) => scenario_outcome(text@) == Ok::<Seq<StepView>, (Option<usize>, Seq<char>)>(
                steps_view(sc.steps@),
            ),
            Err(e) => scenario_outcome(text@) == Err::<Seq<StepView>, (Option<usize>, Seq<char>)>(
                (e.line, e.message@),
            ),
        },
{
    let cs = chars_vec(text);
    let n = cs.len();
    let ghost all = text_lines(cs@);
    let mut steps: Vec<Step> = Vec::new();
    let mut pos: usize = 0;
    let mut line: usize = 0;
    proof {
        assert(cs@.skip(0) =~= cs@);
        assert(all.skip(0) =~= all);
        assert(steps_view(steps@) =~= Seq::<StepView>::empty());
    }
    while pos < n
        invariant
            text@ == cs@,
            n == cs@.len(),
            all == text_lines(cs@),
            pos <= n,
            line <= all.len(),
            line <= pos,
            text_lines(cs@.skip(pos as int)) == all.skip(line as int),
            scenario_from(all, line as int, steps_view(steps@)) == scenario_outcome(cs@),
        decreases n - pos,
    {
        let ghost rest = cs@.skip(pos as int);
        let e = find_char_in(&cs, pos, n, '\n');
        proof {
            assert(cs@.subrange(pos as int, n as int) =~= rest);
            lemma_find_char(rest, '\n');
        }
        let le = if e < n && e > pos && cs[e - 1] == '\r' {
            e - 1
        } else {
            e
        };
        proof {
            if e < n {
                assert(rest.take(e - pos) =~= cs@.subrange(pos as int, e as int));
                assert(crate::scan::strip_cr_c(rest.take(e - pos)) =~= cs@.subrange(pos as int, le as int));
                assert(rest.skip(e - pos + 1) =~= cs@.skip(e + 1));
                assert(text_lines(rest) == seq![cs@.subrange(pos as int, le as int)] + text_lines(cs@.skip(e + 1)));
            } else {
                assert(rest =~= cs@.subrange(pos as int, le as int));
                assert(text_lines(rest) == seq![cs@.subrange(pos as int, le as int)]);
            }
            assert(text_lines(rest).len() > 0);
            assert(line < all.len());
            assert(all.skip(line as int)[0] == all[line as int]);
            assert(all.skip(line as int).drop_first() =~= all.skip(line + 1));
        }
        let first = steps.len() == 0;
        let result = parse_line(text, &cs, pos, le, line + 1, first);
        match result {
            LineResult::Blank => {},
            LineResult::Step(s) => {
                let ghost before = steps@;
                let ghost sv = s@;
                steps.push(s);
                proof {
                    assert(steps_view(steps@) =~= steps_view(before).push(sv));
                }
            },
            LineResult::Fail(m) => {
                return Err(ParseError { line: Some(line + 1), message: m });
            },
        }
        line = line + 1;
        pos = if e < n {
            e + 1
        } else {
            n
        };
        proof {
            if e >= n {
                assert(cs@.skip(n as int) =~= Seq::<char>::empty());
            }
        }
    }
    proof {
        assert(cs@.skip(n as int) =~= Seq::<char>::empty());
        assert(all.skip(line as int).len() == 0);
    }
    if steps.len() == 0 {
        // No line to blame: the file as a whole says nothing.
        return Err(
            ParseError {
                line: None,
                message: String::from_str(
                    "a scenario needs at least one step, beginning with `resize <W>x<H>`",
                ),
            },
        );
    }
    Ok(Scenario { steps })
}


// ---------------------------------------------------------------------------
// Running a script.
// ---------------------------------------------------------------------------

/// Every readable field as an integer, `started` as 0/1, so one comparison
/// rule covers them all.
pub open spec fn field_value(s: State, f: Field) -> u128 {
    match f {
        Field::Score => s.score,
        Field::Currency => s.currency,
        Field::Collectable => s.collectable,
        Field::Reefs => s.reefs@.len() as u128,
        Field::Started => if s.started {
            1
        } else {
            0
        },
    }
}

/// The value `field` reads in `app`'s state.
pub fn read_field(app: &App, field: Field) -> (v: u128)
    ensures
        v == field_value(app.state, field),
{
    match field {
        Field::Score => app.state.score,
        Field::Currency => app.state.currency,
        Field::Collectable => app.state.collectable,
        Field::Reefs => app.state.reefs.len() as u128,
        Field::Started => if app.state.started {
            1
        } else {
            0
        },
    }
}

impl Expectation {
    /// The same expectation, field for field.
    pub fn copied(&self) -> (e: Expectation)
        ensures
            e == *self,
    {
        Expectation {
            line: self.line,
            source: self.source.clone(),
            field: self.field,
            op: self.op,
            value: self.value,
        }
    }
}

/// `a` after `n` animation frames.
pub open spec fn frames(a: App, n: nat) -> App
    decreases n,
{
    if n == 0 {
        a
    } else {
        frames(App::framed(a), (n - 1) as nat)
    }
}

/// A scenario being run: the game, the pane size the last resize named, the
/// waited milliseconds not yet worth a whole animation frame, and the verdict
/// of every expectation met so far.
pub struct Runner {
    pub app: App,
    pub width: u16,
    pub height: u16,
    pub frame_debt_ms: u64,
    pub checks: Vec<Check>,
}

impl Runner {
    pub open spec fn wf(&self) -> bool {
        self.app.wf() && self.frame_debt_ms < FRAME_INTERVAL_MS
    }

    /// Whether `step` can run without overflowing the time owed.
    pub open spec fn can_take(&self, step: Step) -> bool {
        match step {
            Step::Wait { ms } => (self.app.state.started ==> self.app.tick_acc_ms
                + crate::app::scaled_ms(ms, self.app.time_scale) <= u64::MAX)
                && self.frame_debt_ms + ms <= u64::MAX,
            _ => true,
        }
    }

    /// A fresh game, with no clock scaling and no frame drawn: two runs of
    /// one scenario reach the same states. The size is 0x0 until the first
    /// resize names one.
    pub fn new() -> (r: Runner)
        ensures
            r.wf(),
            r.app.state.is_empty_sea(),
            r.app.state.score == 0,
            r.app.state.anchor_pos == crate::engine::DEFAULT_ANCHOR_POS,
            r.app.params.wf(),
            r.app.params.is_default(),
            r.app.layer == crate::app::Layer::Wallpaper,
            r.app.phase == crate::app::Phase::Night,
            r.app.frame == 0,
            r.app.frame_epoch == 0,
            r.app.flash is None,
            r.app.placement_cursor == crate::engine::SLOTS / 2,
            r.app.placement_kind == 0,
            !r.app.new_sea_pending,
            !r.app.anchor_mode,
            !r.app.should_quit,
            r.app.time_scale == 1,
            r.app.tick_acc_ms == 0,
            r.width == 0,
            r.height == 0,
            r.frame_debt_ms == 0,
            r.checks@.len() == 0,
    {
        Runner {
            app: App::new(State::new(), Params::default()),
            width: 0,
            height: 0,
            frame_debt_ms: 0,
            checks: Vec::new(),
        }
    }

    /// Whether `step` can run without overflowing the time owed (`can_take`).
    pub fn fits(&self, step: &Step) -> (b: bool)
        ensures
            b == self.can_take(*step),
    {
        match step {
            Step::Wait { ms } => {
                let owed_fits = if self.app.state.started {
                    self.app.tick_acc_ms.checked_add(
                        crate::engine::params::saturating_mul_u64(*ms, self.app.time_scale),
                    ).is_some()
                } else {
                    true
                };
                owed_fits && self.frame_debt_ms.checked_add(*ms).is_some()
            },
            _ => true,
        }
    }

    /// Run one step. A resize, a key and a wait go to the game exactly as the
    /// player's would (a wait is both kinds of time: engine ticks, then the
    /// animation frames it owes); a phase sets the render's time of day; a
    /// capture changes nothing here (the renderer draws `app` at this
    /// moment); an expectation is judged against the state it reads, and a
    /// failure is recorded, never fatal.
    pub fn take(&mut self, step: &Step)
        requires
            old(self).wf(),
            old(self).can_take(*step),
        ensures
            final(self).wf(),
            match *step {
                Step::Resize { width, height } => *final(self) == (Runner {
                    app: App::resized(old(self).app, width, height),
                    width,
                    height,
                    ..*old(self)
                }),
                Step::Key(k) => *final(self) == (Runner { app: final(self).app, ..*old(self) })
                    && App::keyed(old(self).app, final(self).app, k, false),
                Step::Wait { ms } => {
                    let debt = old(self).frame_debt_ms + ms;
                    &&& *final(self) == (Runner {
                        app: final(self).app,
                        frame_debt_ms: (debt % (FRAME_INTERVAL_MS as int)) as u64,
                        ..*old(self)
                    })
                    &&& exists|mid: App|
                        App::elapsed(old(self).app, mid, ms) && final(self).app == frames(
                            mid,
                            (debt / (FRAME_INTERVAL_MS as int)) as nat,
                        )
                },
                Step::Phase(p) => *final(self) == (Runner {
                    app: App { phase: p, ..old(self).app },
                    ..*old(self)
                }),
                Step::Capture { .. } => *final(self) == *old(self),
                Step::Expect(e) => {
                    let actual = field_value(old(self).app.state, e.field);
                    &&& *final(self) == (Runner { checks: final(self).checks, ..*old(self) })
                    &&& final(self).checks@ == old(self).checks@.push(
                        Check { expectation: e, actual, passed: spec_holds(e.op, actual, e.value) },
                    )
                },
            },
    {
        match step {
            Step::Resize { width, height } => {
                self.width = *width;
                self.height = *height;
                // A resize carries the real thing with it: collecting the pile
                // on the way into the game layer, releasing a held anchor on
                // the way out.
                self.app.on_resize(*width, *height);
            },
            Step::Key(k) => {
                // No scenario spells modifiers: quit is all that reads them.
                self.app.on_key(*k, false);
            },
            Step::Wait { ms } => {
                self.app.on_elapsed(*ms);
                let ghost mid = self.app;
                // Frames and the economy are independent inside one wait: the
                // whole elapsed time goes in first and the frames it owes
                // follow.
                let ghost debt = self.frame_debt_ms + *ms;
                self.frame_debt_ms = self.frame_debt_ms + *ms;
                let ghost mut n: nat = 0;
                while self.frame_debt_ms >= FRAME_INTERVAL_MS
                    invariant
                        self.app.wf(),
                        self.frame_debt_ms + FRAME_INTERVAL_MS * n == debt,
                        self.app == frames(mid, n),
                        self.width == old(self).width,
                        self.height == old(self).height,
                        self.checks == old(self).checks,
                    decreases self.frame_debt_ms,
                {
                    self.frame_debt_ms = self.frame_debt_ms - FRAME_INTERVAL_MS;
                    self.app.on_frame();
                    proof {
                        lemma_frames_step(mid, n);
                        n = n + 1;
                    }
                }
                proof {
                    assert(n == debt / (FRAME_INTERVAL_MS as int) && self.frame_debt_ms == debt % (
                    FRAME_INTERVAL_MS as int)) by (nonlinear_arith)
                        requires
                            self.frame_debt_ms + 200 * n == debt,
                            0 <= self.frame_debt_ms < 200,
                            FRAME_INTERVAL_MS == 200,
                    ;
                }
            },
            Step::Phase(p) => {
                self.app.phase = *p;
            },
            Step::Capture { .. } => {},
            Step::Expect(e) => {
                let actual = read_field(&self.app, e.field);
                let passed = e.op.holds(actual, e.value);
                self.checks.push(Check { expectation: e.copied(), actual, passed });
            },
        }
    }

    /// The outcome of the run, with the frames the renderer captured.
    pub fn finish(self, captures: Vec<Capture>) -> (o: Outcome)
        ensures
            o.app == self.app,
            o.captures == captures,
            o.checks == self.checks,
    {
        Outcome { app: self.app, captures, checks: self.checks }
    }
}

proof fn lemma_frames_step(a: App, n: nat)
    ensures
        frames(a, n + 1) == App::framed(frames(a, n)),
    decreases n,
{
    let b = App::framed(a);
    assert(frames(a, n + 1) == frames(b, n));
    if n > 0 {
        lemma_frames_step(b, (n - 1) as nat);
        assert(frames(a, n) == frames(b, (n - 1) as nat));
    } else {
        assert(frames(b, 0) == b);
    }
}

} // verus!
