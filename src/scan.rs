//! The command-line grammar: what each argument means, and the fold of the
//! arguments into a configuration. A flag given twice is accepted; for a flag that
//! takes a value, the last value is kept.
use crate::error::{CargoPlayError, ErrorModel};
use crate::options::{opt_text, Options, OptionsModel};
use crate::text::{begins_with, same_text, texts, without_first};
use vstd::prelude::*;

verus! {

/// What an argument is to the command line.
#[derive(Debug, Clone, Copy, PartialEq, Eq, Structural)]
pub enum Token {
    Debug,
    Clean,
    Mode,
    Test,
    Check,
    Expand,
    Toolchain,
    Edition,
    Release,
    Cached,
    Quiet,
    Verbose,
    Stdin,
    CargoOption,
    Save,
    Infer,
    Help,
    /// `--`: all that follows is handed to the program.
    Separator,
    /// A flag that the tool does not know.
    Unknown,
    /// A source file.
    Positional,
}

/// What an argument is. Each flag is an argument of its own, and a flag's value is
/// the next argument: grouped short flags (`-vq`), `--flag=value` and a value glued
/// to a short flag (`-e2018`) are not read, and count as unknown flags.
#[verifier::opaque]
pub open spec fn token_of(t: Seq<char>) -> Token {
    if t == "-d"@ || t == "--debug"@ {
        Token::Debug
    } else if t == "-c"@ || t == "--clean"@ {
        Token::Clean
    } else if t == "-m"@ || t == "--mode"@ {
        Token::Mode
    } else if t == "--test"@ {
        Token::Test
    } else if t == "--check"@ {
        Token::Check
    } else if t == "--expand"@ {
        Token::Expand
    } else if t == "-t"@ || t == "--toolchain"@ {
        Token::Toolchain
    } else if t == "-e"@ || t == "--edition"@ {
        Token::Edition
    } else if t == "--release"@ {
        Token::Release
    } else if t == "--cached"@ {
        Token::Cached
    } else if t == "-q"@ || t == "--quiet"@ {
        Token::Quiet
    } else if t == "-v"@ || t == "--verbose"@ {
        Token::Verbose
    } else if t == "--stdin"@ {
        Token::Stdin
    } else if t == "--cargo-option"@ {
        Token::CargoOption
    } else if t == "--save"@ {
        Token::Save
    } else if t == "-i"@ || t == "--infer"@ {
        Token::Infer
    } else if t == "-h"@ || t == "--help"@ {
        Token::Help
    } else if t == "--"@ {
        Token::Separator
    } else if t.len() > 1 && t[0] == '-' {
        Token::Unknown
    } else {
        Token::Positional
    }
}

/// Whether a flag takes the argument after it as its value.
pub open spec fn takes_value(k: Token) -> bool {
    k == Token::Mode || k == Token::Toolchain || k == Token::Edition || k == Token::CargoOption
        || k == Token::Save
}

/// Tells what an argument is.
pub fn classify(t: &str) -> (r: Token)
    ensures
        r == token_of(t@),
{
    reveal(token_of);
    if same_text(t, "-d") || same_text(t, "--debug") {
        Token::Debug
    } else if same_text(t, "-c") || same_text(t, "--clean") {
        Token::Clean
    } else if same_text(t, "-m") || same_text(t, "--mode") {
        Token::Mode
    } else if same_text(t, "--test") {
        Token::Test
    } else if same_text(t, "--check") {
        Token::Check
    } else if same_text(t, "--expand") {
        Token::Expand
    } else if same_text(t, "-t") || same_text(t, "--toolchain") {
        Token::Toolchain
    } else if same_text(t, "-e") || same_text(t, "--edition") {
        Token::Edition
    } else if same_text(t, "--release") {
        Token::Release
    } else if same_text(t, "--cached") {
        Token::Cached
    } else if same_text(t, "-q") || same_text(t, "--quiet") {
        Token::Quiet
    } else if same_text(t, "-v") || same_text(t, "--verbose") {
        Token::Verbose
    } else if same_text(t, "--stdin") {
        Token::Stdin
    } else if same_text(t, "--cargo-option") {
        Token::CargoOption
    } else if same_text(t, "--save") {
        Token::Save
    } else if same_text(t, "-i") || same_text(t, "--infer") {
        Token::Infer
    } else if same_text(t, "-h") || same_text(t, "--help") {
        Token::Help
    } else if same_text(t, "--") {
        Token::Separator
    } else if t.unicode_len() > 1 && t.get_char(0) == '-' {
        Token::Unknown
    } else {
        Token::Positional
    }
}

/// Whether an argument names a toolchain (`+name`).
pub open spec fn is_toolchain_arg(t: Seq<char>) -> bool {
    t.len() > 0 && t[0] == '+'
}

/// The toolchain that the first `+name` argument from `i` on names, without its `+`.
pub open spec fn first_toolchain(toks: Seq<Seq<char>>, i: int) -> Option<Seq<char>>
    decreases toks.len() - i,
{
    if i < 0 || i >= toks.len() {
        None
    } else if is_toolchain_arg(toks[i]) {
        Some(toks[i].drop_first())
    } else {
        first_toolchain(toks, i + 1)
    }
}

/// The arguments without those that name a toolchain, in their order.
pub open spec fn without_toolchain_args(toks: Seq<Seq<char>>) -> Seq<Seq<char>>
    decreases toks.len(),
{
    if toks.len() == 0 {
        toks
    } else {
        let rest = without_toolchain_args(toks.drop_last());
        if is_toolchain_arg(toks.last()) {
            rest
        } else {
            rest.push(toks.last())
        }
    }
}

/// The state of the fold: the configuration so far, the edition's text if one was
/// given, and whether help was asked for.
pub struct ScanModel {
    pub opts: OptionsModel,
    pub edition_text: Option<Seq<char>>,
    pub help: bool,
}

/// Whether a flag only sets a switch (or counts, for `-v`).
pub open spec fn is_switch(k: Token) -> bool {
    k == Token::Debug || k == Token::Clean || k == Token::Test || k == Token::Check || k
        == Token::Expand || k == Token::Release || k == Token::Cached || k == Token::Quiet || k
        == Token::Verbose || k == Token::Stdin || k == Token::Infer
}

/// Whether the fold has read an edition text that names no edition.
pub open spec fn bad_edition(t: Option<Seq<char>>) -> bool {
    t matches Some(e) && crate::edition::edition_of(e) is None
}

/// The state after a flag that takes a value is given the value `v`. A later value
/// replaces an earlier one, except that the first edition text that names no edition
/// is kept, so that it is reported.
pub open spec fn with_value(k: Token, v: Seq<char>, st: ScanModel) -> ScanModel {
    let o = st.opts;
    if k == Token::Mode {
        ScanModel { opts: OptionsModel { mode: Some(v), ..o }, ..st }
    } else if k == Token::Toolchain {
        ScanModel { opts: OptionsModel { toolchain: Some(v), ..o }, ..st }
    } else if k == Token::Edition {
        if bad_edition(st.edition_text) {
            st
        } else {
            ScanModel { edition_text: Some(v), ..st }
        }
    } else if k == Token::CargoOption {
        ScanModel { opts: OptionsModel { cargo_option: Some(v), ..o }, ..st }
    } else {
        ScanModel { opts: OptionsModel { save: Some(v), ..o }, ..st }
    }
}

/// The configuration after a switch; `-v` counts up, and stays at the largest `u16`.
pub open spec fn with_switch(k: Token, o: OptionsModel) -> OptionsModel {
    match k {
        Token::Debug => OptionsModel { debug: true, ..o },
        Token::Clean => OptionsModel { clean: true, ..o },
        Token::Test => OptionsModel { test: true, ..o },
        Token::Check => OptionsModel { check: true, ..o },
        Token::Expand => OptionsModel { expand: true, ..o },
        Token::Release => OptionsModel { release: true, ..o },
        Token::Cached => OptionsModel { cached: true, ..o },
        Token::Quiet => OptionsModel { quiet: true, ..o },
        Token::Verbose => OptionsModel {
            verbose: if o.verbose < u16::MAX {
                (o.verbose + 1) as u16
            } else {
                o.verbose
            },
            ..o
        },
        Token::Stdin => OptionsModel { stdin: true, ..o },
        _ => OptionsModel { infer: true, ..o },
    }
}

/// One step of the fold at argument `i`: the new state and the argument to go on
/// from, or the error that the argument makes.
pub open spec fn step(toks: Seq<Seq<char>>, i: int, st: ScanModel) -> Result<
    (ScanModel, int),
    ErrorModel,
> {
    let t = toks[i];
    let o = st.opts;
    let k = token_of(t);
    if takes_value(k) {
        if i + 1 < toks.len() {
            Ok((with_value(k, toks[i + 1], st), i + 2))
        } else {
            Err(ErrorModel::MissingValue(t))
        }
    } else if is_switch(k) {
        Ok((ScanModel { opts: with_switch(k, o), ..st }, i + 1))
    } else {
        match k {
            Token::Help => Ok((ScanModel { help: true, ..st }, toks.len() as int)),
            Token::Separator => Ok(
                (
                    ScanModel { opts: OptionsModel { args: toks.skip(i + 1), ..o }, ..st },
                    toks.len() as int,
                ),
            ),
            Token::Unknown => Err(ErrorModel::UnrecognizedArgument(t)),
            _ => Ok((ScanModel { opts: OptionsModel { src: o.src.push(t), ..o }, ..st }, i + 1)),
        }
    }
}

/// The fold of the arguments from `i` on into the state `st`.
pub open spec fn scan(toks: Seq<Seq<char>>, i: int, st: ScanModel) -> Result<ScanModel, ErrorModel>
    decreases toks.len() - i,
{
    if i < 0 || i >= toks.len() {
        Ok(st)
    } else {
        match step(toks, i, st) {
            Err(e) => Err(e),
            Ok((s2, j)) => if j > i {
                scan(toks, j, s2)
            } else {
                Ok(s2)
            },
        }
    }
}

/// The view of the fold's state.
pub open spec fn state_of(o: Options, edition_text: Option<String>, help: bool) -> ScanModel {
    ScanModel { opts: o@, edition_text: opt_text(edition_text), help }
}

/// The state before the first argument.
pub open spec fn initial_state() -> ScanModel {
    ScanModel { opts: crate::options::default_model(), edition_text: None, help: false }
}

/// The toolchain that the first `+name` argument names, without its `+`.
pub fn find_toolchain(toks: &Vec<String>) -> (r: Option<String>)
    ensures
        opt_text(r) == first_toolchain(texts(toks@), 0),
{
    let ghost t = texts(toks@);
    let mut i: usize = 0;
    while i < toks.len()
        invariant
            t == texts(toks@),
            i <= toks@.len(),
            first_toolchain(t, i as int) == first_toolchain(t, 0),
        decreases toks@.len() - i,
    {
        if begins_with(toks[i].as_str(), '+') {
            return Some(without_first(toks[i].as_str()));
        }
        i = i + 1;
    }
    None
}

/// The arguments without those that name a toolchain, in their order.
pub fn drop_toolchain_args(toks: &Vec<String>) -> (r: Vec<String>)
    ensures
        texts(r@) == without_toolchain_args(texts(toks@)),
{
    let ghost t = texts(toks@);
    let mut r: Vec<String> = Vec::new();
    let mut i: usize = 0;
    while i < toks.len()
        invariant
            t == texts(toks@),
            i <= toks@.len(),
            texts(r@) == without_toolchain_args(t.take(i as int)),
        decreases toks@.len() - i,
    {
        proof {
            assert(t.take(i + 1).drop_last() =~= t.take(i as int));
        }
        if !begins_with(toks[i].as_str(), '+') {
            r.push(toks[i].clone());
            proof {
                assert(texts(r@) =~= texts(r@).drop_last().push(t[i as int]));
            }
        }
        i = i + 1;
    }
    proof {
        assert(t.take(i as int) =~= t);
    }
    r
}

/// Copies of the arguments from `from` on.
pub(crate) fn tail(toks: &Vec<String>, from: usize) -> (r: Vec<String>)
    requires
        from <= toks@.len(),
    ensures
        texts(r@) == texts(toks@).skip(from as int),
{
    let mut r: Vec<String> = Vec::new();
    let mut i: usize = from;
    while i < toks.len()
        invariant
            from <= i <= toks@.len(),
            texts(r@) == texts(toks@).subrange(from as int, i as int),
        decreases toks@.len() - i,
    {
        let ghost r0 = r@;
        r.push(toks[i].clone());
        proof {
            assert(texts(r@) =~= texts(r0).push(toks@[i as int]@));
            assert(texts(r@) =~= texts(toks@).subrange(from as int, i + 1));
        }
        i = i + 1;
    }
    proof {
        assert(texts(toks@).subrange(from as int, i as int) =~= texts(toks@).skip(from as int));
    }
    r
}

/// Gives the flag `k`, which takes a value, the value `v`.
fn set_value(k: Token, v: String, o: &mut Options, edition_text: &mut Option<String>)
    requires
        takes_value(k),
    ensures
        state_of(*final(o), *final(edition_text), false) == with_value(
            k,
            v@,
            state_of(*old(o), *old(edition_text), false),
        ),
{
    if k == Token::Mode {
        o.mode = Some(v);
    } else if k == Token::Toolchain {
        o.toolchain = Some(v);
    } else if k == Token::Edition {
        let keep = match edition_text {
            Some(t) => crate::edition::RustEdition::from_text(t.as_str()).is_err(),
            None => false,
        };
        if !keep {
            *edition_text = Some(v);
        }
    } else if k == Token::CargoOption {
        o.cargo_option = Some(v);
    } else {
        o.save = Some(v);
    }
}

/// Sets the switch `k`.
fn set_switch(k: Token, o: &mut Options)
    requires
        is_switch(k),
    ensures
        final(o)@ == with_switch(k, old(o)@),
{
    match k {
        Token::Debug => { o.debug = true; },
        Token::Clean => { o.clean = true; },
        Token::Test => { o.test = true; },
        Token::Check => { o.check = true; },
        Token::Expand => { o.expand = true; },
        Token::Release => { o.release = true; },
        Token::Cached => { o.cached = true; },
        Token::Quiet => { o.quiet = true; },
        Token::Verbose => {
            if o.verbose < u16::MAX {
                o.verbose = o.verbose + 1;
            }
        },
        Token::Stdin => { o.stdin = true; },
        _ => { o.infer = true; },
    }
}

/// One step of the fold at argument `i`: updates the state and gives the argument
/// to go on from, or the error that the argument makes.
#[verifier::spinoff_prover]
#[verifier::rlimit(100)]
fn step_exec(
    toks: &Vec<String>,
    i: usize,
    o: &mut Options,
    edition_text: &mut Option<String>,
    help: &mut bool,
) -> (r: Result<usize, CargoPlayError>)
    requires
        i < toks@.len(),
    ensures
        match r {
            Ok(j) => step(texts(toks@), i as int, state_of(*old(o), *old(edition_text), *old(help)))
                == Ok::<(ScanModel, int), ErrorModel>(
                (state_of(*final(o), *final(edition_text), *final(help)), j as int),
            ),
            Err(e) => step(
                texts(toks@),
                i as int,
                state_of(*old(o), *old(edition_text), *old(help)),
            ) == Err::<(ScanModel, int), ErrorModel>(e@),
        },
{
    let ghost t = texts(toks@);
    let ghost i0 = i as int;
    let n = toks.len();
    let k = classify(toks[i].as_str());
    proof {
        assert(t[i0] == toks@[i0]@);
    }
    if k == Token::Mode || k == Token::Toolchain || k == Token::Edition || k == Token::CargoOption
        || k == Token::Save {
        if i + 1 < n {
            let v = toks[i + 1].clone();
            proof {
                assert(t[i0 + 1] == v@);
            }
            let ghost h = *help;
            set_value(k, v, o, edition_text);
            proof {
                assert(state_of(*o, *edition_text, h) == with_value(
                    k,
                    t[i0 + 1],
                    state_of(*old(o), *old(edition_text), h),
                ));
            }
            Ok(i + 2)
        } else {
            Err(CargoPlayError::MissingValue(toks[i].clone()))
        }
    } else if k == Token::Debug || k == Token::Clean || k == Token::Test || k == Token::Check || k
        == Token::Expand || k == Token::Release || k == Token::Cached || k == Token::Quiet || k
        == Token::Verbose || k == Token::Stdin || k == Token::Infer {
        set_switch(k, o);
        Ok(i + 1)
    } else if k == Token::Help {
        *help = true;
        Ok(n)
    } else if k == Token::Separator {
        o.args = tail(toks, i + 1);
        Ok(n)
    } else if k == Token::Unknown {
        Err(CargoPlayError::UnrecognizedArgument(toks[i].clone()))
    } else {
        let ghost src0 = o@.src;
        o.src.push(toks[i].clone());
        proof {
            assert(o@.src =~= src0.push(t[i0]));
        }
        Ok(i + 1)
    }
}

/// Folds the arguments into a configuration, the edition's text if one was given,
/// and whether help was asked for; or the error of the first argument that makes one.
pub fn scan_args(toks: &Vec<String>) -> (r: Result<(Options, Option<String>, bool), CargoPlayError>)
    ensures
        r matches Ok((o, e, h)) ==> scan(texts(toks@), 0, initial_state()) == Ok::<
            ScanModel,
            ErrorModel,
        >(state_of(o, e, h)),
        r matches Err(e) ==> scan(texts(toks@), 0, initial_state()) == Err::<ScanModel, ErrorModel>(
            e@,
        ),
{
    let ghost t = texts(toks@);
    let ghost goal = scan(t, 0, initial_state());
    let n = toks.len();
    let mut o = Options::default();
    let mut edition_text: Option<String> = None;
    let mut help = false;
    let mut i: usize = 0;
    while i < n
        invariant
            n == toks@.len(),
            t == texts(toks@),
            i <= n,
            goal == scan(t, 0, initial_state()),
            scan(t, i as int, state_of(o, edition_text, help)) == goal,
        decreases n - i,
    {
        let ghost before = state_of(o, edition_text, help);
        let ghost i0 = i as int;
        match step_exec(toks, i, &mut o, &mut edition_text, &mut help) {
            Ok(j) => {
                proof {
                    assert(j > i0 ==> scan(t, i0, before) == scan(t, j as int, state_of(o, edition_text, help)));
                }
                if j <= i {
                    proof {
                        assert(scan(t, i0, before) == Ok::<ScanModel, ErrorModel>(state_of(o, edition_text, help)));
                    }
                    return Ok((o, edition_text, help));
                }
                i = j;
            },
            Err(e) => {
                proof {
                    assert(scan(t, i0, before) == Err::<ScanModel, ErrorModel>(e@));
                    assert(scan(t, i0, before) == goal);
                }
                return Err(e);
            },
        }
    }
    Ok((o, edition_text, help))
}

} // verus!
