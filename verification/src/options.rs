//! The arguments of the commands.

use vstd::prelude::*;

use crate::codes::option_view;
use crate::ordered::{views, Data};
use crate::text::{
    all_ascii, is_text, lowered, number_in, parse_u64, to_lowercase, with_small_letters,
};

verus! {

/// Where a configuration comes from.
#[derive(Debug, Clone, PartialEq, Eq)]
pub enum ConfigSource {
    /// A file.
    File(String),
    Helium,
    Mainnet,
    Mocknet,
    Xenon,
}

pub ghost enum SourceV {
    File(Seq<char>),
    Helium,
    Mainnet,
    Mocknet,
    Xenon,
}

impl View for ConfigSource {
    type V = SourceV;

    open spec fn view(&self) -> SourceV {
        match self {
            ConfigSource::File(path) => SourceV::File(path@),
            ConfigSource::Helium => SourceV::Helium,
            ConfigSource::Mainnet => SourceV::Mainnet,
            ConfigSource::Mocknet => SourceV::Mocknet,
            ConfigSource::Xenon => SourceV::Xenon,
        }
    }
}

impl Data for ConfigSource {
    fn duplicate(&self) -> (r: Self) {
        match self {
            ConfigSource::File(path) => ConfigSource::File(path.duplicate()),
            ConfigSource::Helium => ConfigSource::Helium,
            ConfigSource::Mainnet => ConfigSource::Mainnet,
            ConfigSource::Mocknet => ConfigSource::Mocknet,
            ConfigSource::Xenon => ConfigSource::Xenon,
        }
    }

    fn same(&self, other: &Self) -> (b: bool) {
        match (self, other) {
            (ConfigSource::File(x), ConfigSource::File(y)) => x.same(y),
            (ConfigSource::Helium, ConfigSource::Helium) => true,
            (ConfigSource::Mainnet, ConfigSource::Mainnet) => true,
            (ConfigSource::Mocknet, ConfigSource::Mocknet) => true,
            (ConfigSource::Xenon, ConfigSource::Xenon) => true,
            _ => false,
        }
    }
}

/// Options common to many commands.
#[derive(Debug, PartialEq, Eq)]
pub struct CommonOpts {
    /// The configuration that counts: the last that is named.
    pub config: Option<ConfigSource>,
    /// Every configuration that is named, in order. Each has to be readable.
    pub named: Vec<ConfigSource>,
}

/// Why the common options are refused.
#[derive(Debug, Clone, PartialEq, Eq)]
pub enum OptsProblem {
    /// An argument that cannot be parted after two bytes.
    Unsplittable(String),
    /// The option is the last argument, and lacks its value.
    MissingValue(String),
    UnknownNetwork(String),
    Unrecognized(String),
}

pub ghost enum ProblemV {
    Unsplittable(Seq<char>),
    MissingValue(Seq<char>),
    UnknownNetwork(Seq<char>),
    Unrecognized(Seq<char>),
}

impl View for OptsProblem {
    type V = ProblemV;

    open spec fn view(&self) -> ProblemV {
        match self {
            OptsProblem::Unsplittable(arg) => ProblemV::Unsplittable(arg@),
            OptsProblem::MissingValue(opt) => ProblemV::MissingValue(opt@),
            OptsProblem::UnknownNetwork(name) => ProblemV::UnknownNetwork(name@),
            OptsProblem::Unrecognized(opt) => ProblemV::Unrecognized(opt@),
        }
    }
}

/// Common options that are refused: the configurations named before the problem,
/// and the problem.
#[derive(Debug, PartialEq, Eq)]
pub struct OptsError {
    pub named: Vec<ConfigSource>,
    pub problem: OptsProblem,
}

/// The configuration of a network, by its name in lower case.
pub open spec fn network_in(name: Seq<char>) -> Option<SourceV> {
    if name == "helium"@ {
        Some(SourceV::Helium)
    } else if name == "mainnet"@ {
        Some(SourceV::Mainnet)
    } else if name == "mocknet"@ {
        Some(SourceV::Mocknet)
    } else if name == "xenon"@ {
        Some(SourceV::Xenon)
    } else {
        None
    }
}

/// The configuration of a network, by its name in lower case.
pub fn network_named(name: &String) -> (r: Option<ConfigSource>)
    ensures
        option_view(r) == network_in(name@),
{
    if is_text(name, "helium") {
        Some(ConfigSource::Helium)
    } else if is_text(name, "mainnet") {
        Some(ConfigSource::Mainnet)
    } else if is_text(name, "mocknet") {
        Some(ConfigSource::Mocknet)
    } else if is_text(name, "xenon") {
        Some(ConfigSource::Xenon)
    } else {
        None
    }
}

/// Networks are named in any case: names of ASCII that differ only in capital and
/// small letters stand for the same configuration, or for none.
pub proof fn law_network_names_ignore_case(a: Seq<char>, b: Seq<char>)
    requires
        all_ascii(a),
        all_ascii(b),
        with_small_letters(a) == with_small_letters(b),
    ensures
        network_in(lowered(a)) == network_in(lowered(b)),
{
}

/// A text can be parted after its second byte in UTF-8: behind one character of
/// two bytes, or behind two characters of one byte each.
pub open spec fn splittable(s: Seq<char>) -> bool {
    &&& s.len() > 0
    &&& {
        ||| 0x80 <= s[0] as int && (s[0] as int) < 0x800
        ||| (s[0] as int) < 0x80 && s.len() > 1 && (s[1] as int) < 0x80
    }
}

/// A text begins like an option.
pub open spec fn is_option(s: Seq<char>) -> bool {
    s.len() >= 2 && s[0] == '-' && s[1] == '-'
}

/// What draining options comes to: how far it gets, the configurations it finds,
/// and what stops it.
pub ghost struct DrainedV {
    pub end: int,
    pub named: Seq<SourceV>,
    pub problem: Option<ProblemV>,
}

/// Drains options from a place on, where some configurations were found before.
pub open spec fn drained(argv: Seq<Seq<char>>, i: int, named: Seq<SourceV>) -> DrainedV
    decreases argv.len() - i,
{
    if i >= argv.len() {
        DrainedV { end: i, named, problem: None }
    } else if !splittable(argv[i]) {
        DrainedV { end: i, named, problem: Some(ProblemV::Unsplittable(argv[i])) }
    } else if !is_option(argv[i]) {
        DrainedV { end: i, named, problem: None }
    } else {
        let opt = argv[i].skip(2);
        if opt != "config"@ && opt != "network"@ {
            DrainedV { end: i + 1, named, problem: Some(ProblemV::Unrecognized(opt)) }
        } else if i + 1 >= argv.len() {
            DrainedV { end: i + 1, named, problem: Some(ProblemV::MissingValue(opt)) }
        } else if opt == "config"@ {
            drained(argv, i + 2, named.push(SourceV::File(argv[i + 1])))
        } else {
            match network_in(lowered(argv[i + 1])) {
                Some(source) => drained(argv, i + 2, named.push(source)),
                None => DrainedV {
                    end: i + 2,
                    named,
                    problem: Some(ProblemV::UnknownNetwork(lowered(argv[i + 1]))),
                },
            }
        }
    }
}

/// Draining goes forward, and not past the end.
proof fn lemma_drained_forward(argv: Seq<Seq<char>>, i: int, named: Seq<SourceV>)
    requires
        0 <= i <= argv.len(),
    ensures
        i <= drained(argv, i, named).end <= argv.len(),
    decreases argv.len() - i,
{
    if i < argv.len() && splittable(argv[i]) && is_option(argv[i]) {
        let opt = argv[i].skip(2);
        if i + 1 < argv.len() {
            if opt == "config"@ {
                lemma_drained_forward(argv, i + 2, named.push(SourceV::File(argv[i + 1])));
            } else if opt == "network"@ {
                if let Some(source) = network_in(lowered(argv[i + 1])) {
                    lemma_drained_forward(argv, i + 2, named.push(source));
                }
            }
        }
    }
}

/// The last configuration that is named.
pub open spec fn last_named(named: Seq<SourceV>) -> Option<SourceV> {
    if named.len() == 0 {
        None
    } else {
        Some(named.last())
    }
}

fn can_split(s: &String) -> (b: bool)
    ensures
        b == splittable(s@),
{
    let n = s.as_str().unicode_len();
    if n == 0 {
        return false;
    }
    let first: u32 = s.as_str().get_char(0) as u32;
    if first >= 0x800 {
        return false;
    }
    if first >= 0x80 {
        return true;
    }
    if n < 2 {
        return false;
    }
    let second: u32 = s.as_str().get_char(1) as u32;
    second < 0x80
}

/// The name of an option, if a text is one.
fn option_name(s: &String) -> (r: Option<String>)
    ensures
        option_view(r) == (if is_option(s@) {
            Some(s@.skip(2))
        } else {
            None
        }),
{
    let n = s.as_str().unicode_len();
    if n >= 2 && s.as_str().get_char(0) == '-' && s.as_str().get_char(1) == '-' {
        Some(s.as_str().substring_char(2, n).to_string())
    } else {
        None
    }
}

/// Process arguments common to many commands and drain them from `argv`.
///
/// Options are looked for from `start_at` on. For example, if `start_at` is `1`,
/// they are looked for **before** the subcommand:
/// ```console
/// stacks-inspect --config testnet.toml replay-block path/to/chainstate
/// ```
pub fn drain_common_opts(argv: &mut Vec<String>, start_at: usize) -> (r: Result<
    CommonOpts,
    OptsError,
>)
    requires
        start_at <= old(argv).len(),
    ensures
        ({
            let all = views(old(argv)@);
            let found = drained(all, start_at as int, Seq::empty());
            match r {
                Ok(opts) => {
                    &&& found.problem is None
                    &&& views(opts.named@) == found.named
                    &&& option_view(opts.config) == last_named(found.named)
                    &&& start_at <= found.end <= all.len()
                    &&& views(final(argv)@) == all.take(start_at as int) + all.skip(found.end)
                },
                Err(e) => {
                    &&& found.problem == Some(e.problem@)
                    &&& views(e.named@) == found.named
                    &&& final(argv)@ == old(argv)@
                },
            }
        }),
{
    let ghost all = views(argv@);
    let ghost found = drained(all, start_at as int, Seq::empty());
    let mut named: Vec<ConfigSource> = Vec::new();
    let mut i: usize = start_at;
    proof {
        assert(views(named@) =~= Seq::<SourceV>::empty());
        lemma_drained_forward(all, start_at as int, Seq::empty());
    }
    let mut problem: Option<OptsProblem> = None;
    while i < argv.len() && problem.is_none()
        invariant_except_break
            problem is None ==> found == drained(all, i as int, views(named@)),
        invariant
            start_at <= i <= argv.len(),
            argv@ == old(argv)@,
            all == views(argv@),
            problem matches Some(p) ==> found.problem == Some(p@) && found.named == views(named@),
        ensures
            problem is None ==> found == (DrainedV {
                end: i as int,
                named: views(named@),
                problem: None,
            }),
        decreases argv.len() - i + (if problem is None {
            1int
        } else {
            0int
        }),
    {
        let arg = &argv[i];
        assert(all[i as int] == arg@);
        if !can_split(arg) {
            problem = Some(OptsProblem::Unsplittable(arg.duplicate()));
        } else {
            match option_name(arg) {
                None => {
                    break ;
                },
                Some(opt) => {
                    let is_config = is_text(&opt, "config");
                    let is_network = is_text(&opt, "network");
                    if !is_config && !is_network {
                        problem = Some(OptsProblem::Unrecognized(opt));
                    } else if i + 1 >= argv.len() {
                        problem = Some(OptsProblem::MissingValue(opt));
                    } else {
                        let value = &argv[i + 1];
                        assert(all[i + 1] == value@);
                        let ghost before = named@;
                        if is_config {
                            named.push(ConfigSource::File(value.duplicate()));
                            assert(views(named@) =~= views(before).push(
                                SourceV::File(value@),
                            ));
                            i = i + 2;
                        } else {
                            let name = to_lowercase(value.as_str());
                            match network_named(&name) {
                                Some(source) => {
                                    let ghost s = source@;
                                    named.push(source);
                                    assert(views(named@) =~= views(before).push(s));
                                    i = i + 2;
                                },
                                None => {
                                    problem = Some(OptsProblem::UnknownNetwork(name));
                                },
                            }
                        }
                    }
                },
            }
        }
    }
    if let Some(problem) = problem {
        return Err(OptsError { named, problem });
    }
    let end: usize = i;
    while i > start_at
        invariant
            start_at <= i <= end <= all.len(),
            views(argv@) == all.take(i as int) + all.skip(end as int),
        decreases i - start_at,
    {
        i = i - 1;
        let ghost before = argv@;
        assert(views(before).len() == before.len());
        argv.remove(i);
        assert(views(argv@) =~= views(before).remove(i as int));
        assert(views(argv@) =~= all.take(i as int) + all.skip(end as int));
    }
    let config = if named.len() == 0 {
        None
    } else {
        let last = named.len() - 1;
        Some(named[last].duplicate())
    };
    Ok(CommonOpts { config, named })
}

/// After draining, nothing is left to be drained.
pub proof fn law_drained_once(argv: Seq<Seq<char>>, start: int)
    requires
        0 <= start <= argv.len(),
        drained(argv, start, Seq::empty()).problem is None,
    ensures
        ({
            let rest = argv.take(start) + argv.skip(drained(argv, start, Seq::empty()).end);
            drained(rest, start, Seq::empty()) == (DrainedV {
                end: start,
                named: Seq::empty(),
                problem: None,
            })
        }),
{
    let end = drained(argv, start, Seq::empty()).end;
    lemma_drained_forward(argv, start, Seq::empty());
    lemma_drained_stop(argv, start, Seq::empty());
    let rest = argv.take(start) + argv.skip(end);
    if end < argv.len() {
        assert(rest[start] == argv[end]);
    }
}

proof fn lemma_drained_stop(argv: Seq<Seq<char>>, i: int, named: Seq<SourceV>)
    requires
        0 <= i <= argv.len(),
        drained(argv, i, named).problem is None,
    ensures
        ({
            let end = drained(argv, i, named).end;
            end >= argv.len() || splittable(argv[end]) && !is_option(argv[end])
        }),
    decreases argv.len() - i,
{
    if i < argv.len() && splittable(argv[i]) && is_option(argv[i]) {
        let opt = argv[i].skip(2);
        if i + 1 < argv.len() {
            if opt == "config"@ {
                lemma_drained_stop(argv, i + 2, named.push(SourceV::File(argv[i + 1])));
            } else if opt == "network"@ {
                if let Some(source) = network_in(lowered(argv[i + 1])) {
                    lemma_drained_stop(argv, i + 2, named.push(source));
                }
            }
        }
    }
}

/// The first place of a text, from a place on.
pub open spec fn place_of(args: Seq<Seq<char>>, text: Seq<char>, i: int) -> Option<int>
    decreases args.len() - i,
{
    if i >= args.len() {
        None
    } else if args[i] == text {
        Some(i)
    } else {
        place_of(args, text, i + 1)
    }
}

proof fn lemma_place_of(args: Seq<Seq<char>>, text: Seq<char>, i: int)
    requires
        0 <= i,
    ensures
        match place_of(args, text, i) {
            Some(k) => i <= k < args.len() && args[k] == text && forall|j: int|
                i <= j < k ==> #[trigger] args[j] != text,
            None => forall|j: int| i <= j < args.len() ==> #[trigger] args[j] != text,
        },
    decreases args.len() - i,
{
    if i < args.len() && args[i] != text {
        lemma_place_of(args, text, i + 1);
    }
}

/// A flag is among the arguments.
pub open spec fn has_flag(args: Seq<Seq<char>>, flag: Seq<char>) -> bool {
    place_of(args, flag, 0) is Some
}

/// The arguments without the first occurrence of a flag.
pub open spec fn without_flag(args: Seq<Seq<char>>, flag: Seq<char>) -> Seq<Seq<char>> {
    match place_of(args, flag, 0) {
        Some(k) => args.remove(k),
        None => args,
    }
}

fn find_arg(args: &Vec<String>, text: &str) -> (r: Option<usize>)
    ensures
        match r {
            Some(k) => place_of(views(args@), text@, 0) == Some(k as int),
            None => place_of(views(args@), text@, 0) is None,
        },
        r matches Some(k) ==> k < args.len(),
{
    let ghost all = views(args@);
    let mut i: usize = 0;
    while i < args.len()
        invariant
            i <= args.len(),
            all == views(args@),
            place_of(all, text@, 0) == place_of(all, text@, i as int),
        decreases args.len() - i,
    {
        assert(all[i as int] == args[i as int]@);
        if is_text(&args[i], text) {
            return Some(i);
        }
        i = i + 1;
    }
    None
}

/// Takes a flag out of the arguments, and tells whether it was there.
pub fn take_flag(args: &mut Vec<String>, flag: &str) -> (r: bool)
    ensures
        r == has_flag(views(old(args)@), flag@),
        views(final(args)@) == without_flag(views(old(args)@), flag@),
{
    match find_arg(args, flag) {
        Some(k) => {
            let ghost before = args@;
            args.remove(k);
            assert(views(args@) =~= views(before).remove(k as int));
            true
        },
        None => false,
    }
}

fn copy_args(argv: &Vec<String>) -> (r: Vec<String>)
    ensures
        views(r@) == views(argv@),
{
    let mut r: Vec<String> = Vec::new();
    let mut i: usize = 0;
    while i < argv.len()
        invariant
            i <= argv.len(),
            r.len() == i,
            forall|j: int| 0 <= j < i ==> (#[trigger] r[j])@ == argv[j]@,
        decreases argv.len() - i,
    {
        r.push(argv[i].duplicate());
        i = i + 1;
    }
    assert(views(r@) =~= views(argv@));
    r
}

/// The first two operands of a command, which follow its name.
pub open spec fn operands_in(args: Seq<Seq<char>>) -> Option<(Seq<char>, Seq<char>)> {
    if args.len() > 2 {
        Some((args[1], args[2]))
    } else {
        None
    }
}

/// What a pair of texts holds.
pub open spec fn pair_view(r: Option<(String, String)>) -> Option<(Seq<char>, Seq<char>)> {
    match r {
        Some((a, b)) => Some((a@, b@)),
        None => None,
    }
}

/// The first two operands of a command, which follow its name.
pub fn operands(args: &Vec<String>) -> (r: Option<(String, String)>)
    ensures
        pair_view(r) == operands_in(views(args@)),
{
    if args.len() > 2 {
        assert(views(args@)[1] == args[1]@ && views(args@)[2] == args[2]@);
        Some((args[1].duplicate(), args[2].duplicate()))
    } else {
        None
    }
}

/// The arguments of the command that shows the effects of a contract, or of a
/// transaction.
#[derive(Debug, PartialEq, Eq)]
pub struct EffectsArgs {
    /// The database, and the contract or the transaction; `None` where one of
    /// them is missing.
    pub operands: Option<(String, String)>,
    pub json: bool,
    pub graph: bool,
}

/// Reads the arguments of `contract-effects`.
pub fn contract_effects_args(argv: &Vec<String>) -> (r: EffectsArgs)
    ensures
        r.json == has_flag(views(argv@), "--json"@),
        !r.graph,
        pair_view(r.operands) == operands_in(without_flag(views(argv@), "--json"@)),
{
    let mut args = copy_args(argv);
    let json = take_flag(&mut args, "--json");
    EffectsArgs { operands: operands(&args), json, graph: false }
}

/// Reads the arguments of `tx-effects`.
pub fn tx_effects_args(argv: &Vec<String>) -> (r: EffectsArgs)
    ensures
        r.json == has_flag(views(argv@), "--json"@),
        r.graph == has_flag(without_flag(views(argv@), "--json"@), "--graph"@),
        pair_view(r.operands) == operands_in(
            without_flag(without_flag(views(argv@), "--json"@), "--graph"@),
        ),
{
    let mut args = copy_args(argv);
    let json = take_flag(&mut args, "--json");
    let graph = take_flag(&mut args, "--graph");
    EffectsArgs { operands: operands(&args), json, graph }
}

/// The arguments of the command that shows the effects of a transaction of the
/// chain.
#[derive(Debug, PartialEq, Eq)]
pub struct TxidEffectsArgs {
    /// The block to look in, as it is written.
    pub block_id: Option<String>,
    pub rest: EffectsArgs,
}

/// The value behind the first `--block-id`, and the arguments without both;
/// nothing where the value is missing.
pub open spec fn block_id_in(args: Seq<Seq<char>>) -> Option<
    (Option<Seq<char>>, Seq<Seq<char>>),
> {
    match place_of(args, "--block-id"@, 0) {
        None => Some((None, args)),
        Some(k) => if k + 1 < args.len() {
            Some((Some(args[k + 1]), args.remove(k + 1).remove(k)))
        } else {
            None
        },
    }
}

/// Reads the arguments of `txid-effects`. `None` means that `--block-id` lacks
/// its value.
pub fn txid_effects_args(argv: &Vec<String>) -> (r: Option<TxidEffectsArgs>)
    ensures
        match block_id_in(views(argv@)) {
            None => r is None,
            Some((block, args)) => {
                &&& r is Some
                &&& option_view(r->0.block_id) == block
                &&& r->0.rest.json == has_flag(args, "--json"@)
                &&& r->0.rest.graph == has_flag(without_flag(args, "--json"@), "--graph"@)
                &&& pair_view(r->0.rest.operands) == operands_in(
                    without_flag(without_flag(args, "--json"@), "--graph"@),
                )
            },
        },
{
    let mut args = copy_args(argv);
    let mut block_id: Option<String> = None;
    if let Some(k) = find_arg(&args, "--block-id") {
        if k + 1 >= args.len() {
            return None;
        }
        let ghost before = args@;
        assert(views(before)[k + 1] == before[k + 1]@);
        let value = args.remove(k + 1);
        assert(views(args@) =~= views(before).remove(k + 1));
        let ghost between = args@;
        args.remove(k);
        assert(views(args@) =~= views(between).remove(k as int));
        block_id = Some(value);
    }
    let json = take_flag(&mut args, "--json");
    let graph = take_flag(&mut args, "--graph");
    Some(TxidEffectsArgs { block_id, rest: EffectsArgs { operands: operands(&args), json, graph } })
}

/// The arguments of the command that tries to mine a block.
#[derive(Debug, PartialEq, Eq)]
pub struct TryMineArgs {
    pub db_path: String,
    pub min_fee: u64,
    pub max_time: u64,
}

/// Why the arguments are refused.
#[derive(Debug, Clone, Copy, PartialEq, Eq)]
pub enum TryMineProblem {
    /// There is no working directory.
    Usage,
    BadMinFee,
    BadMaxTime,
}

/// The number at a place; the largest where there is no argument.
pub open spec fn limit_at(argv: Seq<Seq<char>>, i: int) -> Option<u64> {
    if i < argv.len() {
        number_in(argv[i])
    } else {
        Some(u64::MAX)
    }
}

fn limit_arg(argv: &Vec<String>, i: usize) -> (r: Option<u64>)
    ensures
        r == limit_at(views(argv@), i as int),
{
    if i < argv.len() {
        assert(views(argv@)[i as int] == argv[i as int]@);
        parse_u64(argv[i].as_str())
    } else {
        Some(0xffff_ffff_ffff_ffff)
    }
}

/// Reads the arguments of `try-mine`.
pub fn try_mine_args(argv: &Vec<String>) -> (r: Result<TryMineArgs, TryMineProblem>)
    ensures
        ({
            let all = views(argv@);
            match r {
                Ok(args) => {
                    &&& all.len() > 1
                    &&& args.db_path@ == all[1]
                    &&& limit_at(all, 2) == Some(args.min_fee)
                    &&& limit_at(all, 3) == Some(args.max_time)
                },
                Err(TryMineProblem::Usage) => all.len() <= 1,
                Err(TryMineProblem::BadMinFee) => all.len() > 1 && limit_at(all, 2) is None,
                Err(TryMineProblem::BadMaxTime) => all.len() > 1 && limit_at(all, 2) is Some
                    && limit_at(all, 3) is None,
            }
        }),
{
    if argv.len() <= 1 {
        return Err(TryMineProblem::Usage);
    }
    let min_fee = match limit_arg(argv, 2) {
        Some(min_fee) => min_fee,
        None => {
            return Err(TryMineProblem::BadMinFee);
        },
    };
    let max_time = match limit_arg(argv, 3) {
        Some(max_time) => max_time,
        None => {
            return Err(TryMineProblem::BadMaxTime);
        },
    };
    Ok(TryMineArgs { db_path: argv[1].duplicate(), min_fee, max_time })
}

/// Taking a flag out takes out one argument, which is the flag, or none; the flag
/// is gone if it was there once.
pub proof fn law_flag_taken(args: Seq<Seq<char>>, flag: Seq<char>)
    ensures
        has_flag(args, flag) <==> args.contains(flag),
        !has_flag(args, flag) ==> without_flag(args, flag) == args,
        has_flag(args, flag) ==> without_flag(args, flag).len() == args.len() - 1,
        args.no_duplicates() ==> !has_flag(without_flag(args, flag), flag),
{
    lemma_place_of(args, flag, 0);
    let rest = without_flag(args, flag);
    lemma_place_of(rest, flag, 0);
    match place_of(args, flag, 0) {
        Some(k) => {
            if args.no_duplicates() && has_flag(rest, flag) {
                let j = place_of(rest, flag, 0)->0;
                if j < k {
                    assert(rest[j] == args[j]);
                } else {
                    assert(rest[j] == args[j + 1]);
                }
            }
        },
        None => {},
    }
}

/// A network goes by this name, in capital or small letters.
pub open spec fn is_named(value: Seq<char>, name: Seq<char>) -> bool {
    all_ascii(value) && with_small_letters(value) == name
}

/// Each configuration is named with its option and the argument behind it, and they
/// are taken up one after another: a file by its path, and a network by its name.
/// Draining ends without a problem where the arguments end.
pub proof fn law_options_name_configurations(
    argv: Seq<Seq<char>>,
    i: int,
    named: Seq<SourceV>,
)
    requires
        0 <= i,
    ensures
        i >= argv.len() ==> drained(argv, i, named) == (DrainedV {
            end: i,
            named,
            problem: None,
        }),
        i + 1 < argv.len() && argv[i] == "--config"@ ==> drained(argv, i, named) == drained(
            argv,
            i + 2,
            named.push(SourceV::File(argv[i + 1])),
        ),
        i + 1 < argv.len() && argv[i] == "--network"@ ==> {
            let value = argv[i + 1];
            &&& is_named(value, "helium"@) ==> drained(argv, i, named) == drained(
                argv,
                i + 2,
                named.push(SourceV::Helium),
            )
            &&& is_named(value, "mainnet"@) ==> drained(argv, i, named) == drained(
                argv,
                i + 2,
                named.push(SourceV::Mainnet),
            )
            &&& is_named(value, "mocknet"@) ==> drained(argv, i, named) == drained(
                argv,
                i + 2,
                named.push(SourceV::Mocknet),
            )
            &&& is_named(value, "xenon"@) ==> drained(argv, i, named) == drained(
                argv,
                i + 2,
                named.push(SourceV::Xenon),
            )
            &&& all_ascii(value) && !is_named(value, "helium"@) && !is_named(value, "mainnet"@)
                && !is_named(value, "mocknet"@) && !is_named(value, "xenon"@) ==> {
                &&& drained(argv, i, named).problem == Some(
                    ProblemV::UnknownNetwork(with_small_letters(value)),
                )
                &&& drained(argv, i, named).named == named
            }
        },
{
    reveal_strlit("--config");
    reveal_strlit("--network");
    reveal_strlit("config");
    reveal_strlit("network");
    reveal_strlit("helium");
    reveal_strlit("mainnet");
    reveal_strlit("mocknet");
    reveal_strlit("xenon");
    assert("--config"@.skip(2) =~= "config"@);
    assert("--network"@.skip(2) =~= "network"@);
    assert("config"@.len() == 6 && "network"@.len() == 7);
    assert("helium"@.len() == 6 && "xenon"@.len() == 5);
    assert("mainnet"@[1] == 'a' && "mocknet"@[1] == 'o');
    assert("mainnet"@.len() == 7 && "mocknet"@.len() == 7);
    assert("--config"@[0] == '-' && "--config"@[1] == '-');
    assert("--network"@[0] == '-' && "--network"@[1] == '-');
}

/// What stops draining: an option without its value, an option of another name, and
/// an argument that cannot be parted after two bytes are problems, and keep what was
/// named before; any other argument ends the options.
pub proof fn law_other_arguments_stop_draining(
    argv: Seq<Seq<char>>,
    i: int,
    named: Seq<SourceV>,
)
    requires
        0 <= i < argv.len(),
    ensures
        ({
            let arg = argv[i];
            let found = drained(argv, i, named);
            let ascii = |k: int| arg.len() > k && arg[k] <= '\u{7f}';
            let two_bytes = arg.len() > 0 && '\u{80}' <= arg[0] && arg[0] <= '\u{7ff}';
            let option = ascii(0) && ascii(1) && arg[0] == '-' && arg[1] == '-';
            &&& i + 1 == argv.len() && arg == "--config"@ ==> found.named == named && found.problem
                == Some(ProblemV::MissingValue("config"@))
            &&& i + 1 == argv.len() && arg == "--network"@ ==> found.named == named && found.problem
                == Some(ProblemV::MissingValue("network"@))
            &&& option && arg != "--config"@ && arg != "--network"@ ==> found.named == named
                && found.problem == Some(ProblemV::Unrecognized(arg.skip(2)))
            &&& (two_bytes || ascii(0) && ascii(1)) && !option ==> found == (DrainedV {
                end: i,
                named,
                problem: None,
            })
            &&& !two_bytes && !(ascii(0) && ascii(1)) ==> found.named == named && found.problem
                == Some(ProblemV::Unsplittable(arg))
        }),
{
    reveal_strlit("--config");
    reveal_strlit("--network");
    reveal_strlit("config");
    reveal_strlit("network");
    assert("--config"@.skip(2) =~= "config"@);
    assert("--network"@.skip(2) =~= "network"@);
    assert("config"@.len() == 6 && "network"@.len() == 7);
    let arg = argv[i];
    if is_option(arg) {
        if arg.skip(2) == "config"@ {
            assert(arg =~= "--config"@) by {
                assert forall|k: int| 2 <= k < arg.len() implies arg[k] == "--config"@[k] by {
                    assert(arg.skip(2)[k - 2] == "config"@[k - 2]);
                    assert("--config"@.skip(2)[k - 2] == "config"@[k - 2]);
                }
            }
        }
        if arg.skip(2) == "network"@ {
            assert(arg =~= "--network"@) by {
                assert forall|k: int| 2 <= k < arg.len() implies arg[k] == "--network"@[k] by {
                    assert(arg.skip(2)[k - 2] == "network"@[k - 2]);
                    assert("--network"@.skip(2)[k - 2] == "network"@[k - 2]);
                }
            }
        }
    }
}

/// The configuration that is named last counts.
pub proof fn law_last_configuration_counts(named: Seq<SourceV>, last: SourceV)
    ensures
        last_named(Seq::empty()) is None,
        last_named(named.push(last)) == Some(last),
{
}

/// Arguments are others with the one at a place taken out.
pub open spec fn is_without(rest: Seq<Seq<char>>, args: Seq<Seq<char>>, k: int) -> bool {
    &&& rest.len() == args.len() - 1
    &&& forall|j: int| 0 <= j < k ==> #[trigger] rest[j] == args[j]
    &&& forall|j: int| k <= j < rest.len() ==> #[trigger] rest[j] == args[j + 1]
}

/// A text stands at a place, and at none before it.
pub open spec fn is_first(args: Seq<Seq<char>>, text: Seq<char>, k: int) -> bool {
    &&& 0 <= k < args.len()
    &&& args[k] == text
    &&& forall|j: int| 0 <= j < k ==> #[trigger] args[j] != text
}

/// A flag is taken out where it stands first, and the other arguments keep their
/// order.
pub proof fn law_flags_are_taken_out(args: Seq<Seq<char>>, flag: Seq<char>, k: int)
    ensures
        has_flag(args, flag) <==> args.contains(flag),
        is_first(args, flag, k) ==> is_without(without_flag(args, flag), args, k),
        !args.contains(flag) ==> without_flag(args, flag) == args,
{
    lemma_place_of(args, flag, 0);
    if is_first(args, flag, k) {
        let j = place_of(args, flag, 0)->0;
        if j < k {
            assert(args[j] != flag);
        }
        if k < j {
            assert(args[k] != flag);
        }
    }
}

/// The block to look in is the argument behind its option, where that stands first;
/// both are taken out, and the other arguments keep their order. Without the option
/// there is no block to look in, and an option without a value is refused.
pub proof fn law_block_is_named_by_its_option(args: Seq<Seq<char>>, k: int, j: int)
    ensures
        !args.contains("--block-id"@) ==> block_id_in(args) == Some(
            (None::<Seq<char>>, args),
        ),
        is_first(args, "--block-id"@, k) && k + 1 == args.len() ==> block_id_in(args) is None,
        is_first(args, "--block-id"@, k) && k + 1 < args.len() ==> (
        block_id_in(args) matches Some((block, rest)) && {
            &&& block == Some(args[k + 1])
            &&& rest.len() == args.len() - 2
            &&& 0 <= j < k ==> rest[j] == args[j]
            &&& k <= j < rest.len() ==> rest[j] == args[j + 2]
        }),
{
    let text = "--block-id"@;
    lemma_place_of(args, text, 0);
    if is_first(args, text, k) {
        let p = place_of(args, text, 0)->0;
        if p < k {
            assert(args[p] != text);
        }
        if k < p {
            assert(args[k] != text);
        }
    }
}

/// The two arguments behind the command are what it is about, and both are needed. A
/// limit is the number at its place, or none where nothing stands there.
pub proof fn law_arguments_have_their_places(args: Seq<Seq<char>>, i: int)
    requires
        0 <= i,
    ensures
        args.len() > 2 ==> operands_in(args) == Some((args[1], args[2])),
        args.len() <= 2 ==> operands_in(args) is None,
        i < args.len() ==> limit_at(args, i) == number_in(args[i]),
        i >= args.len() ==> limit_at(args, i) == Some(0xffff_ffff_ffff_ffffu64),
{
}

} // verus!
