use crate::edition::{edition_of, edition_result, RustEdition};
use crate::error::{CargoPlayError, ErrorModel};
use crate::scan::{
    find_toolchain, drop_toolchain_args, first_toolchain, initial_state, is_toolchain_arg, scan,
    scan_args, tail, without_toolchain_args, ScanModel,
};
use crate::text::same_text;
use crate::identity::{identity, identity_of, is_base58_char, work_dir_of};
use crate::text::texts;
use vstd::prelude::*;

verus! {

/// The view of an optional string.
pub open spec fn opt_text(o: Option<String>) -> Option<Seq<char>> {
    match o {
        Some(s) => Some(s@),
        None => None,
    }
}

/// The configuration of one run.
#[derive(Debug)]
pub struct Options {
    pub debug: bool,
    /// Rebuild the project without the cache of an earlier run.
    pub clean: bool,
    /// The Cargo subcommand to call (`run` when none is given).
    pub mode: Option<String>,
    /// Run the tests of the code (the same as `--mode test`).
    pub test: bool,
    /// Check the code for errors (the same as `--mode check`).
    pub check: bool,
    /// Expand the macros of the code (the same as `--mode expand`).
    pub expand: bool,
    /// The toolchain named by a `+name` argument.
    pub toolchain: Option<String>,
    /// The source files.
    pub src: Vec<String>,
    /// The Rust edition of the generated project.
    pub edition: RustEdition,
    /// Build in release mode.
    pub release: bool,
    pub cached: bool,
    /// Silence Cargo's output.
    pub quiet: bool,
    /// How verbose Cargo is: how often `-v` was given.
    pub verbose: u16,
    /// Read `main.rs` from standard input.
    pub stdin: bool,
    /// Flags handed to Cargo as they are.
    pub cargo_option: Option<String>,
    /// Where to keep the generated project.
    pub save: Option<String>,
    /// Infer the crates that the code depends on.
    pub infer: bool,
    /// Arguments handed to the program that is run.
    pub args: Vec<String>,
}

/// The mathematical value of an [`Options`].
pub struct OptionsModel {
    pub debug: bool,
    pub clean: bool,
    pub mode: Option<Seq<char>>,
    pub test: bool,
    pub check: bool,
    pub expand: bool,
    pub toolchain: Option<Seq<char>>,
    pub src: Seq<Seq<char>>,
    pub edition: RustEdition,
    pub release: bool,
    pub cached: bool,
    pub quiet: bool,
    pub verbose: u16,
    pub stdin: bool,
    pub cargo_option: Option<Seq<char>>,
    pub save: Option<Seq<char>>,
    pub infer: bool,
    pub args: Seq<Seq<char>>,
}

impl View for Options {
    type V = OptionsModel;

    open spec fn view(&self) -> OptionsModel {
        OptionsModel {
            debug: self.debug,
            clean: self.clean,
            mode: opt_text(self.mode),
            test: self.test,
            check: self.check,
            expand: self.expand,
            toolchain: opt_text(self.toolchain),
            src: texts(self.src@),
            edition: self.edition,
            release: self.release,
            cached: self.cached,
            quiet: self.quiet,
            verbose: self.verbose,
            stdin: self.stdin,
            cargo_option: opt_text(self.cargo_option),
            save: opt_text(self.save),
            infer: self.infer,
            args: texts(self.args@),
        }
    }
}

/// The configuration when nothing is given: no switch set, nothing named, edition 2021.
pub open spec fn default_model() -> OptionsModel {
    OptionsModel {
        debug: false,
        clean: false,
        mode: None,
        test: false,
        check: false,
        expand: false,
        toolchain: None,
        src: Seq::empty(),
        edition: RustEdition::E2021,
        release: false,
        cached: false,
        quiet: false,
        verbose: 0,
        stdin: false,
        cargo_option: None,
        save: None,
        infer: false,
        args: Seq::empty(),
    }
}

/// How many of the mode selections `--mode`, `--test`, `--check`, `--expand` are made.
pub open spec fn mode_count(o: OptionsModel) -> int {
    (if o.mode is Some { 1int } else { 0 }) + (if o.test { 1int } else { 0 }) + (if o.check {
        1int
    } else {
        0
    }) + (if o.expand { 1int } else { 0 })
}

/// The arguments after the program's name, without a `play` right after it (the
/// name under which Cargo starts the tool).
pub open spec fn arguments_of(args: Seq<Seq<char>>) -> Seq<Seq<char>> {
    if args.len() >= 2 && args[1] == "play"@ {
        args.skip(2)
    } else {
        args.skip(1)
    }
}

/// The edition that the fold's edition text gives: 2021 when none was given.
pub open spec fn edition_choice(t: Option<Seq<char>>) -> Result<RustEdition, ErrorModel> {
    match t {
        None => Ok(RustEdition::E2021),
        Some(s) => edition_result(s),
    }
}

/// What the folded arguments come to: nothing when help was asked for; else the
/// checks of the modes, the edition and the input, in this order.
pub open spec fn finish(st: ScanModel, toolchain: Option<Seq<char>>) -> Result<
    Option<OptionsModel>,
    ErrorModel,
> {
    if st.help {
        Ok(None)
    } else if mode_count(st.opts) >= 2 {
        Err(ErrorModel::ConflictingMode)
    } else {
        match edition_choice(st.edition_text) {
            Err(e) => Err(e),
            Ok(ed) => if st.opts.src.len() == 0 && !st.opts.stdin {
                Err(ErrorModel::NoInputProvided)
            } else {
                Ok(Some(OptionsModel { edition: ed, toolchain, ..st.opts }))
            },
        }
    }
}

/// What the command line `args` (the program's name first) comes to: nothing (help
/// is to be shown) when no argument follows the name; else the first `+name`
/// argument names the toolchain, and the other arguments are folded.
pub open spec fn parse_model(args: Seq<Seq<char>>) -> Result<Option<OptionsModel>, ErrorModel> {
    if args.len() < 2 {
        Ok(None)
    } else {
        let toks = arguments_of(args);
        match scan(without_toolchain_args(toks), 0, initial_state()) {
            Err(e) => Err(e),
            Ok(st) => finish(st, first_toolchain(toks, 0)),
        }
    }
}

/// The view of what [`Options::parse`] returns.
pub open spec fn parse_view(r: Result<Option<Options>, CargoPlayError>) -> Result<
    Option<OptionsModel>,
    ErrorModel,
> {
    match r {
        Ok(Some(o)) => Ok(Some(o@)),
        Ok(None) => Ok(None),
        Err(e) => Err(e@),
    }
}

/// The paths that resolved, in their order.
pub open spec fn resolved_paths(s: Seq<Option<Seq<char>>>) -> Seq<Seq<char>>
    decreases s.len(),
{
    if s.len() == 0 {
        Seq::empty()
    } else {
        let r = resolved_paths(s.drop_last());
        match s.last() {
            Some(p) => r.push(p),
            None => r,
        }
    }
}

/// The view of what [`Options::with_resolved_sources`] returns.
pub open spec fn resolve_view(r: Result<Options, CargoPlayError>) -> Result<OptionsModel, ErrorModel> {
    match r {
        Ok(o) => Ok(o@),
        Err(e) => Err(e@),
    }
}

/// The text of a resolved path, empty where there is none.
pub open spec fn resolved_text(r: Option<Seq<char>>) -> Seq<char> {
    match r {
        Some(s) => s,
        None => Seq::empty(),
    }
}

/// The error of the first source, from `i` on, that did not resolve (it names the
/// text given) or whose resolved path is not a regular file (it names that path).
pub open spec fn source_error(
    src: Seq<Seq<char>>,
    resolved: Seq<Option<Seq<char>>>,
    is_file: Seq<bool>,
    i: int,
) -> Option<ErrorModel>
    decreases src.len() - i,
{
    if i < 0 || i >= src.len() {
        None
    } else if resolved[i] is None {
        Some(ErrorModel::UnresolvablePath(src[i]))
    } else if !is_file[i] {
        Some(ErrorModel::MissingInputFile(resolved_text(resolved[i])))
    } else {
        source_error(src, resolved, is_file, i + 1)
    }
}

/// A configuration whose sources are replaced by what they resolved to.
pub open spec fn resolve_model(
    o: OptionsModel,
    resolved: Seq<Option<Seq<char>>>,
    is_file: Seq<bool>,
) -> Result<OptionsModel, ErrorModel> {
    match source_error(o.src, resolved, is_file, 0) {
        Some(e) => Err(e),
        None => Ok(
            OptionsModel {
                src: resolved.map_values(|r: Option<Seq<char>>| resolved_text(r)),
                ..o
            },
        ),
    }
}

impl Default for Options {
    fn default() -> (r: Options)
        ensures
            r@ == default_model(),
    {
        let r = Options {
            debug: false,
            clean: false,
            mode: None,
            test: false,
            check: false,
            expand: false,
            toolchain: None,
            src: Vec::new(),
            edition: RustEdition::E2021,
            release: false,
            cached: false,
            quiet: false,
            verbose: 0,
            stdin: false,
            cargo_option: None,
            save: None,
            infer: false,
            args: Vec::new(),
        };
        assert(r@.src =~= Seq::<Seq<char>>::empty());
        assert(r@.args =~= Seq::<Seq<char>>::empty());
        r
    }
}

impl Options {
    /// A configuration of the source paths that resolved, in their order, everything
    /// else as by default. `src[i]` is the canonical path of the `i`-th file, or
    /// `None` where it could not be resolved; those are left out.
    pub fn with_files(src: Vec<Option<String>>) -> (r: Options)
        ensures
            r@ == (OptionsModel {
                src: resolved_paths(src@.map_values(|p: Option<String>| opt_text(p))),
                ..default_model()
            }),
    {
        let ghost sv = src@.map_values(|p: Option<String>| opt_text(p));
        let mut out: Vec<String> = Vec::new();
        let mut i: usize = 0;
        while i < src.len()
            invariant
                i <= src@.len(),
                sv == src@.map_values(|p: Option<String>| opt_text(p)),
                texts(out@) == resolved_paths(sv.take(i as int)),
            decreases src@.len() - i,
        {
            proof {
                assert(sv.take(i + 1).drop_last() =~= sv.take(i as int));
                assert(sv.take(i + 1).last() == opt_text(src@[i as int]));
            }
            match &src[i] {
                Some(p) => {
                    let ghost o0 = out@;
                    out.push(p.clone());
                    proof {
                        assert(texts(out@) =~= texts(o0).push(p@));
                    }
                },
                None => {},
            }
            i = i + 1;
        }
        proof {
            assert(sv.take(i as int) =~= sv);
        }
        let mut r = Options::default();
        r.src = out;
        r
    }

    /// The identifier of the source files: the Base58 text of the SHA-1 digest of
    /// their paths' UTF-8 bytes, path after path in byte order.
    pub fn src_hash(&self) -> (r: String)
        ensures
            r@ == identity_of(self@.src),
            forall|i: int| 0 <= i < r@.len() ==> is_base58_char(#[trigger] r@[i]),
            0 < r@.len() <= 30,
    {
        identity(&self.src)
    }

    /// The name of the work directory of these source files: `cargo-play.` and their
    /// identifier.
    pub fn temp_dirname(&self) -> (r: String)
        ensures
            r@ == work_dir_of(self@.src),
    {
        let mut r = String::from_str("cargo-play.");
        let h = self.src_hash();
        r.append(h.as_str());
        r
    }

    /// The same configuration with the given toolchain.
    pub fn with_toolchain(self, toolchain: Option<String>) -> (r: Options)
        ensures
            r@ == (OptionsModel { toolchain: opt_text(toolchain), ..self@ }),
    {
        let mut r = self;
        r.toolchain = toolchain;
        r
    }

    /// Reads the command line `args`, the program's name first. `Ok(None)` means
    /// that nothing is to be done but show the usage: no argument follows the name,
    /// or help was asked for. The sources stand in the result as they were given;
    /// [`Options::with_resolved_sources`] resolves them.
    pub fn parse(args: Vec<String>) -> (r: Result<Option<Options>, CargoPlayError>)
        ensures
            parse_view(r) == parse_model(texts(args@)),
    {
        if args.len() < 2 {
            return Ok(None);
        }
        let ghost a = texts(args@);
        let start: usize = if same_text(args[1].as_str(), "play") {
            2
        } else {
            1
        };
        proof {
            assert(a[1] == args@[1]@);
        }
        let toks = tail(&args, start);
        let toolchain = find_toolchain(&toks);
        let kept = drop_toolchain_args(&toks);
        match scan_args(&kept) {
            Err(e) => Err(e),
            Ok((o, edition_text, help)) => {
                if help {
                    return Ok(None);
                }
                if (o.mode.is_some() && (o.test || o.check || o.expand)) || (o.test && (o.check
                    || o.expand)) || (o.check && o.expand) {
                    return Err(CargoPlayError::ConflictingMode);
                }
                let edition = match edition_text {
                    None => RustEdition::E2021,
                    Some(t) => match RustEdition::from_text(t.as_str()) {
                        Ok(e) => e,
                        Err(e) => {
                            return Err(e);
                        },
                    },
                };
                if o.src.len() == 0 && !o.stdin {
                    return Err(CargoPlayError::NoInputProvided);
                }
                let mut r = o.with_toolchain(toolchain);
                r.edition = edition;
                Ok(Some(r))
            },
        }
    }

    /// Replaces each source by its resolved path. `resolved[i]` is the absolute,
    /// canonical path of `src[i]`, or `None` where it could not be resolved;
    /// `is_file[i]` says whether that path is an existing regular file. The first
    /// source that fails either gives the error.
    pub fn with_resolved_sources(self, resolved: Vec<Option<String>>, is_file: Vec<bool>) -> (r:
        Result<Options, CargoPlayError>)
        requires
            resolved@.len() == self.src@.len(),
            is_file@.len() == self.src@.len(),
        ensures
            resolve_view(r) == resolve_model(
                self@,
                resolved@.map_values(|p: Option<String>| opt_text(p)),
                is_file@,
            ),
    {
        let ghost rv = resolved@.map_values(|p: Option<String>| opt_text(p));
        let ghost sv = self@.src;
        let mut out: Vec<String> = Vec::new();
        let mut i: usize = 0;
        while i < self.src.len()
            invariant
                i <= self.src@.len(),
                resolved@.len() == self.src@.len(),
                is_file@.len() == self.src@.len(),
                rv == resolved@.map_values(|p: Option<String>| opt_text(p)),
                sv == self@.src,
                source_error(sv, rv, is_file@, 0) == source_error(sv, rv, is_file@, i as int),
                texts(out@) =~= rv.take(i as int).map_values(|q: Option<Seq<char>>| resolved_text(q)),
            decreases self.src@.len() - i,
        {
            match &resolved[i] {
                None => {
                    return Err(CargoPlayError::UnresolvablePath(self.src[i].clone()));
                },
                Some(p) => {
                    if !is_file[i] {
                        return Err(CargoPlayError::MissingInputFile(p.clone()));
                    }
                    let ghost o0 = out@;
                    out.push(p.clone());
                    proof {
                        assert(texts(out@) =~= texts(o0).push(p@));
                        assert(rv.take(i + 1) =~= rv.take(i as int).push(rv[i as int]));
                    }
                },
            }
            i = i + 1;
        }
        proof {
            assert(rv.take(i as int) =~= rv);
        }
        let mut r = self;
        r.src = out;
        Ok(r)
    }
}

/// Two or more of `--mode`, `--test`, `--check`, `--expand` make the command line
/// fail with `ConflictingMode`, whenever every argument is understood and help is
/// not asked for.
pub proof fn lemma_conflicting_modes(args: Seq<Seq<char>>)
    requires
        args.len() >= 2,
        scan(without_toolchain_args(arguments_of(args)), 0, initial_state()) matches Ok(st) && !st.help
            && mode_count(st.opts) >= 2,
    ensures
        parse_model(args) == Err::<Option<OptionsModel>, ErrorModel>(ErrorModel::ConflictingMode),
{
}

/// An edition other than `2015`, `2018`, `2021` makes the command line fail with
/// `InvalidEdition`, carrying the text, whenever every argument is understood, help
/// is not asked for and at most one mode is selected.
pub proof fn lemma_invalid_edition(args: Seq<Seq<char>>, text: Seq<char>)
    requires
        args.len() >= 2,
        scan(without_toolchain_args(arguments_of(args)), 0, initial_state()) matches Ok(st) && !st.help
            && mode_count(st.opts) < 2 && st.edition_text == Some(text),
        edition_of(text) is None,
    ensures
        parse_model(args) == Err::<Option<OptionsModel>, ErrorModel>(
            ErrorModel::InvalidEdition(text),
        ),
{
}

/// No source file and no `--stdin` make the command line fail with
/// `NoInputProvided`, whenever every argument is understood, help is not asked for,
/// at most one mode is selected and the edition is valid.
pub proof fn lemma_no_input(args: Seq<Seq<char>>)
    requires
        args.len() >= 2,
        scan(without_toolchain_args(arguments_of(args)), 0, initial_state()) matches Ok(st) && !st.help
            && mode_count(st.opts) < 2 && edition_choice(st.edition_text) is Ok && st.opts.src.len()
            == 0 && !st.opts.stdin,
    ensures
        parse_model(args) == Err::<Option<OptionsModel>, ErrorModel>(ErrorModel::NoInputProvided),
{
}

proof fn lemma_first_toolchain_at(toks: Seq<Seq<char>>, i: int, k: int)
    requires
        0 <= i <= k < toks.len(),
        is_toolchain_arg(toks[k]),
        forall|j: int| i <= j < k ==> !is_toolchain_arg(#[trigger] toks[j]),
    ensures
        first_toolchain(toks, i) == Some(toks[k].drop_first()),
    decreases k - i,
{
    if i < k {
        lemma_first_toolchain_at(toks, i + 1, k);
    }
}

proof fn lemma_no_toolchain_args_left(toks: Seq<Seq<char>>)
    ensures
        forall|j: int|
            0 <= j < without_toolchain_args(toks).len() ==> !is_toolchain_arg(
                #[trigger] without_toolchain_args(toks)[j],
            ),
    decreases toks.len(),
{
    if toks.len() > 0 {
        let rest = without_toolchain_args(toks.drop_last());
        lemma_no_toolchain_args_left(toks.drop_last());
        if !is_toolchain_arg(toks.last()) {
            assert forall|j: int| 0 <= j < rest.len() + 1 implies !is_toolchain_arg(
                #[trigger] rest.push(toks.last())[j],
            ) by {
                if j < rest.len() {
                    assert(rest.push(toks.last())[j] == rest[j]);
                }
            }
        }
    }
}

/// A `+name` argument, anywhere after the program's name, is taken out of the
/// arguments that are folded; the first one names the toolchain of the result.
pub proof fn lemma_toolchain_arg(args: Seq<Seq<char>>, k: int, name: Seq<char>)
    requires
        1 <= k < args.len(),
        args[k] == seq!['+'] + name,
        forall|j: int| 1 <= j < k ==> !is_toolchain_arg(#[trigger] args[j]),
    ensures
        first_toolchain(arguments_of(args), 0) == Some(name),
        !without_toolchain_args(arguments_of(args)).contains(args[k]),
        parse_model(args) matches Ok(Some(o)) ==> o.toolchain == Some(name),
{
    let toks = arguments_of(args);
    let start: int = if args.len() >= 2 && args[1] == "play"@ {
        2
    } else {
        1
    };
    assert(is_toolchain_arg(args[k]));
    if start == 2 {
        reveal_strlit("play");
        assert(args[1][0] == 'p');
        assert(k != 1);
    }
    assert(toks[k - start] == args[k]);
    assert forall|j: int| 0 <= j < k - start implies !is_toolchain_arg(#[trigger] toks[j]) by {
        assert(toks[j] == args[j + start]);
    }
    lemma_first_toolchain_at(toks, 0, k - start);
    assert((seq!['+'] + name).drop_first() =~= name);
    lemma_no_toolchain_args_left(toks);
}

proof fn lemma_no_toolchain_args_kept(s: Seq<Seq<char>>)
    requires
        forall|j: int| 0 <= j < s.len() ==> !is_toolchain_arg(#[trigger] s[j]),
    ensures
        without_toolchain_args(s) == s,
        forall|i: int| 0 <= i ==> first_toolchain(s, i) is None,
    decreases s.len(),
{
    if s.len() > 0 {
        lemma_no_toolchain_args_kept(s.drop_last());
        assert(s.drop_last().push(s.last()) =~= s);
        assert forall|i: int| 0 <= i implies first_toolchain(s, i) is None by {
            lemma_first_toolchain_none(s, i);
        }
    } else {
        assert forall|i: int| 0 <= i implies first_toolchain(s, i) is None by {}
    }
}

proof fn lemma_first_toolchain_none(s: Seq<Seq<char>>, i: int)
    requires
        0 <= i,
        forall|j: int| 0 <= j < s.len() ==> !is_toolchain_arg(#[trigger] s[j]),
    ensures
        first_toolchain(s, i) is None,
    decreases s.len() - i,
{
    if i < s.len() {
        lemma_first_toolchain_none(s, i + 1);
    }
}

proof fn lemma_drop_one_toolchain_arg(toks: Seq<Seq<char>>, idx: int)
    requires
        0 <= idx < toks.len(),
        is_toolchain_arg(toks[idx]),
        forall|j: int| 0 <= j < toks.len() && j != idx ==> !is_toolchain_arg(#[trigger] toks[j]),
    ensures
        without_toolchain_args(toks) == toks.remove(idx),
    decreases toks.len(),
{
    let p = toks.drop_last();
    if idx == toks.len() - 1 {
        assert forall|j: int| 0 <= j < p.len() implies !is_toolchain_arg(#[trigger] p[j]) by {
            assert(p[j] == toks[j]);
        }
        lemma_no_toolchain_args_kept(p);
        assert(toks.remove(idx) =~= p);
    } else {
        assert forall|j: int| 0 <= j < p.len() && j != idx implies !is_toolchain_arg(
            #[trigger] p[j],
        ) by {
            assert(p[j] == toks[j]);
        }
        assert(p[idx] == toks[idx]);
        lemma_drop_one_toolchain_arg(p, idx);
        assert(!is_toolchain_arg(toks[toks.len() - 1]));
        assert(p.remove(idx).push(toks.last()) =~= toks.remove(idx));
    }
}

/// A single `+name` argument changes nothing of the result but its toolchain:
/// reading the arguments with it gives what reading them without it gives, with the
/// toolchain `name`.
pub proof fn lemma_toolchain_arg_removed(args: Seq<Seq<char>>, k: int, name: Seq<char>)
    requires
        1 <= k < args.len(),
        args.len() >= 3,
        args[k] == seq!['+'] + name,
        forall|j: int| 1 <= j < args.len() && j != k ==> !is_toolchain_arg(#[trigger] args[j]),
        k >= 2 || args[2] != "play"@,
    ensures
        parse_model(args) == match parse_model(args.remove(k)) {
            Ok(Some(o)) => Ok(Some(OptionsModel { toolchain: Some(name), ..o })),
            other => other,
        },
{
    let r = args.remove(k);
    let toks = arguments_of(args);
    let tr = arguments_of(r);
    reveal_strlit("play");
    assert(is_toolchain_arg(args[k]));
    let start: int = if args[1] == "play"@ {
        2
    } else {
        1
    };
    if args[1] == "play"@ {
        assert(args[1][0] == 'p');
        assert(k >= 2);
        assert(r[1] == args[1]);
        assert(tr =~= toks.remove(k - 2));
    } else if k == 1 {
        assert(r[1] == args[2]);
        assert(tr =~= toks.remove(0));
    } else {
        assert(r[1] == args[1]);
        assert(tr =~= toks.remove(k - 1));
    }
    assert(toks[k - start] == args[k]);
    assert forall|j: int| 0 <= j < toks.len() && j != k - start implies !is_toolchain_arg(
        #[trigger] toks[j],
    ) by {
        assert(toks[j] == args[j + start]);
    }
    assert forall|j: int| 0 <= j < tr.len() implies !is_toolchain_arg(#[trigger] tr[j]) by {
        if j < k - start {
            assert(tr[j] == toks[j]);
        } else {
            assert(tr[j] == toks[j + 1]);
        }
    }
    lemma_drop_one_toolchain_arg(toks, k - start);
    lemma_no_toolchain_args_kept(tr);
    lemma_toolchain_arg(args, k, name);
}

} // verus!
