//! Command-line argument parsing: a pure function from argument tokens to a
//! result, testable without touching argv or the process.

use vstd::prelude::*;
use vstd::string::{StrSliceExecFns, StringExecFns, StringSliceAdditionalSpecFns};
use vstd::utf8::encode_utf8;

use crate::text::{parse_at_most, parse_u128_in};

verus! {

/// Parsed command-line options: the time scale, a test-only fast-forward that
/// defaults to 1 (real time).
#[derive(Clone, Copy, Debug, PartialEq, Eq, Structural)]
pub struct Options {
    pub time_scale: u64,
}

impl Default for Options {
    fn default() -> (o: Self)
        ensures
            o.time_scale == 1,
    {
        Self { time_scale: 1 }
    }
}

/// What the arguments asked the binary to do: `Run` opens a terminal, the
/// other two print a line and are done.
#[derive(Clone, Copy, Debug, PartialEq, Eq, Structural)]
pub enum Invocation {
    Run(Options),
    Help,
    Version,
}

/// What `--help` prints. Kept ASCII: unlike the tank it must survive a
/// console that is not UTF-8. `--time-scale` is deliberately absent: it is a
/// harness fast-forward with a save file of its own, not part of the game.
pub const HELP: &'static str = "A tiny sea in a terminal pane that grows while your coding agent works.

Usage: terminarium [OPTIONS]

The window size is the interface. One binary, two layers:

  wallpaper  any pane smaller than 80x20: just the sea. No numbers, no
             input; the thing you glance at between prompts.
  game       80x20 or larger: the same sea plus the economy - your
             currency, prices, and the reef.

Start in a wide pane: place your reef, press s to start the sea, buy your
first algae, then shrink the pane and get back to work.

Placing the reef (until s):

  h l (or left/right)  move along the sea floor
  j k (or up/down)     pick a reef to place
  Enter / Backspace    drop / lift a reef
  s                    commit the reef and start the sea

During the run:

  1-4                  buy life: algae -> plankton -> small fish -> big fish
  a                    grab the sunken anchor (h l move it, Enter sets it)
  n, then y            start a new sea (prestige)

q (or Ctrl-C) quits, in either layer, at any time.

Options:

  -h, --help     print this help and exit
  -V, --version  print the version and exit";

/// What `--version` prints: the program's name and its release.
pub const VERSION_LINE: &'static str = "terminarium 0.3.0";

/// The outcome of reading `args` from position `i` on, with the time scale
/// read so far: a request (`-h`/`--help`, `-V`/`--version`) wins where it
/// stands, `--time-scale` takes a whole number of at least 1, and anything
/// else is a mistake, answered with the message the binary prints.
pub open spec fn parse_from(args: Seq<Seq<char>>, i: int, scale: u64) -> Result<Invocation, Seq<char>>
    decreases args.len() - i,
{
    if i < 0 || i >= args.len() {
        Ok(Invocation::Run(Options { time_scale: scale }))
    } else {
        let a = args[i];
        if a == "-h"@ || a == "--help"@ {
            Ok(Invocation::Help)
        } else if a == "-V"@ || a == "--version"@ {
            Ok(Invocation::Version)
        } else if a == "--time-scale"@ {
            if i + 1 >= args.len() {
                Err("--time-scale needs a value"@)
            } else {
                match parse_at_most(encode_utf8(args[i + 1]), u64::MAX as nat) {
                    None => Err("--time-scale: not a number: "@ + args[i + 1]),
                    Some(n) => if n == 0 {
                        Err("--time-scale must be at least 1"@)
                    } else {
                        parse_from(args, i + 2, n as u64)
                    },
                }
            }
        } else {
            Err("unknown argument: "@ + a)
        }
    }
}

/// The arguments as character sequences.
pub open spec fn arg_texts(args: Seq<String>) -> Seq<Seq<char>> {
    args.map_values(|s: String| s@)
}

/// Whether `a` and `b` hold the same characters.
fn same_text(a: &str, b: &str) -> (r: bool)
    ensures
        r == (a@ == b@),
{
    let n = a.unicode_len();
    if n != b.unicode_len() {
        return false;
    }
    let mut i: usize = 0;
    while i < n
        invariant
            n == a@.len(),
            n == b@.len(),
            i <= n,
            forall|j: int| 0 <= j < i ==> a@[j] == b@[j],
        decreases n - i,
    {
        if a.get_char(i) != b.get_char(i) {
            return false;
        }
        i += 1;
    }
    assert(a@ =~= b@);
    true
}

/// `prefix` followed by `rest`.
fn message(prefix: &str, rest: &str) -> (m: String)
    ensures
        m@ == prefix@ + rest@,
{
    let mut m = String::from_str(prefix);
    m.append(rest);
    m
}

/// Parse argument tokens (the program name already stripped). A caller
/// mistake comes back as `Err(message)` for the binary to print on stderr and
/// exit non-zero; `--help` and `--version` are requests, not mistakes, so they
/// come back as `Ok`. A request wins from where it stands: parsing stops
/// there, and whatever came before it still has to be valid.
pub fn parse(args: &[String]) -> (r: Result<Invocation, String>)
    ensures
        match r {
            Ok(inv) => parse_from(arg_texts(args@), 0, 1) == Ok::<Invocation, Seq<char>>(inv),
            Err(m) => parse_from(arg_texts(args@), 0, 1) == Err::<Invocation, Seq<char>>(m@),
        },
{
    let ghost texts = arg_texts(args@);
    let mut options = Options::default();
    let mut i: usize = 0;
    while i < args.len()
        invariant
            texts == arg_texts(args@),
            i <= args@.len(),
            parse_from(texts, i as int, options.time_scale) == parse_from(texts, 0, 1),
        decreases args@.len() - i,
    {
        let arg = args[i].as_str();
        assert(arg@ == texts[i as int]);
        if same_text(arg, "-h") || same_text(arg, "--help") {
            return Ok(Invocation::Help);
        } else if same_text(arg, "-V") || same_text(arg, "--version") {
            return Ok(Invocation::Version);
        } else if same_text(arg, "--time-scale") {
            if i + 1 >= args.len() {
                return Err(String::from_str("--time-scale needs a value"));
            }
            let value = args[i + 1].as_str();
            assert(value@ == texts[i + 1]);
            let bytes = value.as_bytes();
            let n = bytes.len();
            assert(bytes@.subrange(0, n as int) =~= bytes@);
            let scale = match parse_u128_in(bytes, 0, n) {
                Some(v) => {
                    if v > u64::MAX as u128 {
                        return Err(message("--time-scale: not a number: ", value));
                    }
                    v as u64
                },
                None => {
                    return Err(message("--time-scale: not a number: ", value));
                },
            };
            if scale == 0 {
                return Err(String::from_str("--time-scale must be at least 1"));
            }
            options.time_scale = scale;
            i += 2;
        } else {
            return Err(message("unknown argument: ", arg));
        }
    }
    Ok(Invocation::Run(options))
}

} // verus!
