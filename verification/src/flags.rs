use vstd::prelude::*;

use crate::config::{
    parse_neighborhood, parse_u32_csv, spec_parse_neighborhood, spec_parse_u32,
    spec_parse_u32_csv, spec_points2d_parts, spec_repeat,
};
use crate::digits::{
    dec_value, find_idx, is_dec_digit, parse_u32_str, split_seq, split_str, str_eq, str_views,
    uint_body, uint_ok,
};
use crate::nb::Neighborhood;
use crate::types::Cell;

verus! {

/// A fully parsed automaton choice of the plain argument frontend.
#[derive(Debug, PartialEq, Eq)]
pub enum AutomatonType {
    Elementary(u8),
    Cyclic(Neighborhood, u8, u32),
    Life(Vec<Cell>, Vec<Cell>),
}

/// A fully parsed initial-grid choice of the plain argument frontend.
#[derive(Debug, PartialEq, Eq)]
pub enum InitType {
    Random(Vec<Cell>),
    Points1D(Vec<usize>),
    Points2D(Vec<(usize, usize)>),
}

/// Everything the engine and the window need from the plain argument list.
#[derive(Debug)]
pub struct Options {
    pub automaton_type: AutomatonType,
    pub init_type: InitType,
    pub size: Option<(u32, u32)>,
    pub cell_width: Option<u32>,
    pub delay: u32,
}

/// The mathematical contents of an `AutomatonType`.
pub enum AutomatonTypeView {
    Elementary(u8),
    Cyclic(Neighborhood, u8, u32),
    Life(Seq<Cell>, Seq<Cell>),
}

/// The mathematical contents of an `InitType`.
pub enum InitTypeView {
    Random(Seq<Cell>),
    Points1D(Seq<usize>),
    Points2D(Seq<(usize, usize)>),
}

/// The mathematical contents of an `Options`.
pub struct OptionsView {
    pub automaton_type: AutomatonTypeView,
    pub init_type: InitTypeView,
    pub size: Option<(u32, u32)>,
    pub cell_width: Option<u32>,
    pub delay: u32,
}

/// The view of an `AutomatonType`.
pub open spec fn automaton_type_view(t: AutomatonType) -> AutomatonTypeView {
    match t {
        AutomatonType::Elementary(c) => AutomatonTypeView::Elementary(c),
        AutomatonType::Cyclic(n, th, st) => AutomatonTypeView::Cyclic(n, th, st),
        AutomatonType::Life(s, b) => AutomatonTypeView::Life(s@, b@),
    }
}

/// The view of an `InitType`.
pub open spec fn init_type_view(t: InitType) -> InitTypeView {
    match t {
        InitType::Random(v) => InitTypeView::Random(v@),
        InitType::Points1D(v) => InitTypeView::Points1D(v@),
        InitType::Points2D(v) => InitTypeView::Points2D(v@),
    }
}

/// The view of an `Options`.
pub open spec fn options_view(o: Options) -> OptionsView {
    OptionsView {
        automaton_type: automaton_type_view(o.automaton_type),
        init_type: init_type_view(o.init_type),
        size: o.size,
        cell_width: o.cell_width,
        delay: o.delay,
    }
}

/// What the elementary automaton arguments denote: an 8-bit rule code.
pub open spec fn spec_parse_elementary_automaton(args: Seq<Seq<char>>, idx: int) -> Result<
    (AutomatonTypeView, int),
    Seq<char>,
> {
    match spec_parse_u32(args, idx) {
        Err(_) => Err("Specify rule code!"@),
        Ok((code, idx)) => if code > 255 {
            Err("Rule code must be in range 0-255!"@)
        } else {
            Ok((AutomatonTypeView::Elementary(code as u8), idx))
        },
    }
}

/// What the cyclic automaton arguments denote.
pub open spec fn spec_parse_cyclic_automaton(args: Seq<Seq<char>>, idx: int) -> Result<
    (AutomatonTypeView, int),
    Seq<char>,
> {
    match spec_parse_neighborhood(args, idx) {
        Err(m) => Err(m),
        Ok((nbh, idx)) => match spec_parse_u32(args, idx) {
            Err(_) => Err("Invalid or no threshold value!"@),
            Ok((th, idx)) => if th > 255 {
                Err("Threshold must be in range 0..255!"@)
            } else {
                match spec_parse_u32(args, idx) {
                    Err(_) => Err("Invalid or no states count!"@),
                    Ok((st, idx)) => Ok(
                        (AutomatonTypeView::Cyclic(nbh, th as u8, st), idx),
                    ),
                }
            },
        },
    }
}

/// What a separated-list argument denotes, together with the next index.
pub open spec fn spec_parse_u32_csv_at(args: Seq<Seq<char>>, idx: int) -> Result<
    (Seq<u32>, int),
    (),
> {
    if idx >= args.len() {
        Err(())
    } else {
        match spec_parse_u32_csv(args[idx], ',') {
            Ok(v) => Ok((v, idx + 1)),
            Err(e) => Err(e),
        }
    }
}

/// What the life-like automaton arguments denote.
pub open spec fn spec_parse_life_automaton(args: Seq<Seq<char>>, idx: int) -> Result<
    (AutomatonTypeView, int),
    Seq<char>,
> {
    match spec_parse_u32_csv_at(args, idx) {
        Err(_) => Err("Invalid SURVIVE_COUNTS value!"@),
        Ok((survive, idx)) => match spec_parse_u32_csv_at(args, idx) {
            Err(_) => Err("Invalid BIRTH_COUNTS value!"@),
            Ok((birth, idx)) => Ok((AutomatonTypeView::Life(survive, birth), idx)),
        },
    }
}

/// What the automaton-type arguments denote: a type word followed by that
/// type's parameters.
pub open spec fn spec_parse_automaton_type(args: Seq<Seq<char>>, idx: int) -> Result<
    (AutomatonTypeView, int),
    Seq<char>,
> {
    if idx >= args.len() {
        Err("Specify automaton type!"@)
    } else if args[idx] == "elementary"@ {
        spec_parse_elementary_automaton(args, idx + 1)
    } else if args[idx] == "cyclic"@ {
        spec_parse_cyclic_automaton(args, idx + 1)
    } else if args[idx] == "life"@ {
        spec_parse_life_automaton(args, idx + 1)
    } else {
        Err("Unknown automaton type!"@)
    }
}

/// True when the argument holds a character that is neither a decimal digit
/// nor one of the separators of an explicit state list.
pub open spec fn has_non_state_char(s: Seq<char>) -> bool {
    exists|i: int| 0 <= i < s.len() && !(is_dec_digit(#[trigger] s[i]) || s[i] == ',' || s[i] == '*')
}

/// The uniform state list of the plain frontend: every state of a cyclic
/// automaton, the two binary states otherwise.
pub open spec fn spec_default_states(at: AutomatonTypeView) -> Seq<u32> {
    match at {
        AutomatonTypeView::Cyclic(_, _, st) => Seq::new(st as nat, |i: int| i as u32),
        _ => seq![0u32, 1u32],
    }
}

/// The expanded state list that comma-separated state parts denote.
pub open spec fn spec_state_list(parts: Seq<Seq<char>>) -> Result<Seq<u32>, ()>
    decreases parts.len(),
{
    if parts.len() == 0 {
        Ok(Seq::empty())
    } else {
        match crate::config::spec_parse_init_state(parts[0]) {
            Err(e) => Err(e),
            Ok((v, c)) => match spec_state_list(parts.skip(1)) {
                Err(e) => Err(e),
                Ok(rest) => Ok(spec_repeat(v, c as int) + rest),
            },
        }
    }
}

/// What the optional state-list argument denotes: the default list when the
/// argument is missing, is `default`, or holds any non-list character, and
/// otherwise the expanded explicit list.
pub open spec fn spec_parse_init_random(
    args: Seq<Seq<char>>,
    idx: int,
    at: AutomatonTypeView,
) -> Result<(InitTypeView, int), Seq<char>> {
    if idx >= args.len() || has_non_state_char(args[idx]) || args[idx] == "default"@ {
        Ok(
            (
                InitTypeView::Random(spec_default_states(at)),
                if idx < args.len() && args[idx] == "default"@ {
                    idx + 1
                } else {
                    idx
                },
            ),
        )
    } else {
        match spec_state_list(split_seq(args[idx], ',')) {
            Err(_) => Err("Invalid INIT_STATES value!"@),
            Ok(states) => Ok((InitTypeView::Random(states), idx + 1)),
        }
    }
}

/// What the points argument denotes for the one-dimensional automaton.
pub open spec fn spec_parse_points1d(args: Seq<Seq<char>>, idx: int) -> Result<
    (InitTypeView, int),
    (),
> {
    if idx >= args.len() {
        Err(())
    } else {
        match spec_parse_u32_csv_at(args, idx) {
            Err(e) => Err(e),
            Ok((vals, idx)) => Ok(
                (InitTypeView::Points1D(vals.map_values(|x: u32| x as usize)), idx),
            ),
        }
    }
}

/// What the points argument denotes for a two-dimensional automaton.
pub open spec fn spec_parse_points2d(args: Seq<Seq<char>>, idx: int) -> Result<
    (InitTypeView, int),
    (),
> {
    if idx >= args.len() {
        Err(())
    } else {
        match spec_points2d_parts(split_seq(args[idx], ';')) {
            Err(e) => Err(e),
            Ok(coords) => Ok((InitTypeView::Points2D(coords), idx + 1)),
        }
    }
}

/// What the points argument denotes, by the automaton's dimension.
pub open spec fn spec_parse_init_points(
    args: Seq<Seq<char>>,
    idx: int,
    at: AutomatonTypeView,
) -> Result<(InitTypeView, int), Seq<char>> {
    if idx >= args.len() {
        Err("INIT_POINTS is not set!"@)
    } else {
        let sub = if at is Elementary {
            spec_parse_points1d(args, idx)
        } else {
            spec_parse_points2d(args, idx)
        };
        match sub {
            Ok(p) => Ok(p),
            Err(_) => Err("Invalid INIT_POINTS value!"@),
        }
    }
}

/// What the initialization arguments denote: a `random` or `points` word
/// followed by that form's parameters.
pub open spec fn spec_parse_init_type(
    args: Seq<Seq<char>>,
    idx: int,
    at: AutomatonTypeView,
) -> Result<(InitTypeView, int), Seq<char>> {
    if idx >= args.len() {
        Err("Specify initialization type!"@)
    } else if args[idx] == "random"@ {
        spec_parse_init_random(args, idx + 1, at)
    } else if args[idx] == "points"@ {
        spec_parse_init_points(args, idx + 1, at)
    } else {
        Err("Unknown initialization type!"@)
    }
}

/// What the optional size argument denotes: a `WIDTHxHEIGHT` pair when an
/// argument is left.
pub open spec fn spec_parse_size(args: Seq<Seq<char>>, idx: int) -> Result<
    (Option<(u32, u32)>, int),
    Seq<char>,
> {
    if idx >= args.len() {
        Ok((None, idx))
    } else {
        let s = args[idx];
        let p = find_idx(s, 'x', 0);
        if p == s.len() {
            Err("Size must me specified as WIDTHxHEIGHT!"@)
        } else if !uint_ok(s.take(p), u32::MAX as int) {
            Err("Invalid width!"@)
        } else if !uint_ok(s.skip(p + 1), u32::MAX as int) {
            Err("Invalid height!"@)
        } else {
            Ok(
                (
                    Some(
                        (
                            dec_value(uint_body(s.take(p))) as u32,
                            dec_value(uint_body(s.skip(p + 1))) as u32,
                        ),
                    ),
                    idx + 1,
                ),
            )
        }
    }
}

/// What the trailing window arguments denote: the optional size, the
/// optional cell width, and the delay with its default of five.
pub open spec fn spec_parse_sdl_params(args: Seq<Seq<char>>, idx: int) -> Result<
    (Option<(u32, u32)>, Option<u32>, u32, int),
    Seq<char>,
> {
    match spec_parse_size(args, idx) {
        Err(m) => Err(m),
        Ok((size, idx)) => if idx >= args.len() {
            Ok((size, None, 5u32, idx))
        } else {
            match spec_parse_u32(args, idx) {
                Err(_) => Err("Invalid CELL_WIDTH value!"@),
                Ok((cw, idx)) => if idx >= args.len() {
                    Ok((size, Some(cw), 5u32, idx))
                } else {
                    match spec_parse_u32(args, idx) {
                        Err(_) => Err("Invalid DELAY value!"@),
                        Ok((delay, idx)) => Ok((size, Some(cw), delay, idx)),
                    }
                },
            }
        },
    }
}

/// What a whole argument list denotes, the leading program name skipped.
pub open spec fn spec_parse_args(args: Seq<Seq<char>>) -> Result<OptionsView, Seq<char>> {
    match spec_parse_automaton_type(args, 1) {
        Err(m) => Err(m),
        Ok((at, idx)) => match spec_parse_init_type(args, idx, at) {
            Err(m) => Err(m),
            Ok((it, idx)) => match spec_parse_sdl_params(args, idx) {
                Err(m) => Err(m),
                Ok((size, cell_width, delay, idx)) => if idx < args.len() {
                    Err("Trailing args!"@)
                } else {
                    Ok(
                        OptionsView {
                            automaton_type: at,
                            init_type: it,
                            size,
                            cell_width,
                            delay,
                        },
                    )
                },
            },
        },
    }
}

/// Parses the argument at `idx` as a `u32`.
pub fn parse_u32(args: &Vec<String>, idx: usize) -> (r: Result<(u32, usize), ()>)
    ensures
        match r {
            Ok((v, ni)) => spec_parse_u32(crate::config::args_views(*args), idx as int) == Ok::<
                (u32, int),
                (),
            >((v, ni as int)),
            Err(e) => spec_parse_u32(crate::config::args_views(*args), idx as int) == Err::<
                (u32, int),
                (),
            >(e),
        },
{
    crate::config::parse_u32(args, idx)
}

/// Relates an exec parse step over `AutomatonType` to its spec mirror.
pub open spec fn at_step_matches(
    r: Result<(AutomatonType, usize), &'static str>,
    s: Result<(AutomatonTypeView, int), Seq<char>>,
) -> bool {
    match r {
        Ok((t, ni)) => s == Ok::<(AutomatonTypeView, int), Seq<char>>(
            (automaton_type_view(t), ni as int),
        ),
        Err(m) => s == Err::<(AutomatonTypeView, int), Seq<char>>(m@),
    }
}

/// Relates an exec parse step over `InitType` to its spec mirror.
pub open spec fn it_step_matches(
    r: Result<(InitType, usize), &'static str>,
    s: Result<(InitTypeView, int), Seq<char>>,
) -> bool {
    match r {
        Ok((t, ni)) => s == Ok::<(InitTypeView, int), Seq<char>>(
            (init_type_view(t), ni as int),
        ),
        Err(m) => s == Err::<(InitTypeView, int), Seq<char>>(m@),
    }
}

/// Parses the elementary automaton arguments.
pub fn parse_elementary_automaton(args: &Vec<String>, idx: usize) -> (r: Result<
    (AutomatonType, usize),
    &'static str,
>)
    ensures
        at_step_matches(r, spec_parse_elementary_automaton(crate::config::args_views(*args), idx as int)),
{
    let (code, idx) = match parse_u32(args, idx) {
        Ok(p) => p,
        Err(_) => {
            return Err("Specify rule code!");
        },
    };
    if code > 255 {
        return Err("Rule code must be in range 0-255!");
    }
    Ok((AutomatonType::Elementary(code as u8), idx))
}

/// Parses the cyclic automaton arguments.
pub fn parse_cyclic_automaton(args: &Vec<String>, idx: usize) -> (r: Result<
    (AutomatonType, usize),
    &'static str,
>)
    ensures
        at_step_matches(r, spec_parse_cyclic_automaton(crate::config::args_views(*args), idx as int)),
{
    let (nbh, idx) = match parse_neighborhood(args, idx) {
        Ok(p) => p,
        Err(m) => {
            return Err(m);
        },
    };
    let (th, idx) = match parse_u32(args, idx) {
        Ok(p) => p,
        Err(_) => {
            return Err("Invalid or no threshold value!");
        },
    };
    if th > 255 {
        return Err("Threshold must be in range 0..255!");
    }
    let (st, idx) = match parse_u32(args, idx) {
        Ok(p) => p,
        Err(_) => {
            return Err("Invalid or no states count!");
        },
    };
    Ok((AutomatonType::Cyclic(nbh, th as u8, st), idx))
}

/// Parses a comma-separated list argument, `empty` standing for the empty
/// list.
pub fn parse_u32_csv_at(args: &Vec<String>, idx: usize) -> (r: Result<(Vec<u32>, usize), ()>)
    ensures
        match r {
            Ok((v, ni)) => spec_parse_u32_csv_at(crate::config::args_views(*args), idx as int)
                == Ok::<(Seq<u32>, int), ()>((v@, ni as int)),
            Err(e) => spec_parse_u32_csv_at(crate::config::args_views(*args), idx as int) == Err::<
                (Seq<u32>, int),
                (),
            >(e),
        },
{
    if args.len() <= idx {
        return Err(());
    }
    match parse_u32_csv(args[idx].as_str(), ',') {
        Ok(v) => Ok((v, idx + 1)),
        Err(e) => Err(e),
    }
}

/// Parses the life-like automaton arguments.
pub fn parse_life_automaton(args: &Vec<String>, idx: usize) -> (r: Result<
    (AutomatonType, usize),
    &'static str,
>)
    ensures
        at_step_matches(r, spec_parse_life_automaton(crate::config::args_views(*args), idx as int)),
{
    let (survive, idx) = match parse_u32_csv_at(args, idx) {
        Ok(p) => p,
        Err(_) => {
            return Err("Invalid SURVIVE_COUNTS value!");
        },
    };
    let (birth, idx) = match parse_u32_csv_at(args, idx) {
        Ok(p) => p,
        Err(_) => {
            return Err("Invalid BIRTH_COUNTS value!");
        },
    };
    Ok((AutomatonType::Life(survive, birth), idx))
}

/// Parses the automaton-type arguments.
pub fn parse_automaton_type(args: &Vec<String>, idx: usize) -> (r: Result<
    (AutomatonType, usize),
    &'static str,
>)
    ensures
        at_step_matches(r, spec_parse_automaton_type(crate::config::args_views(*args), idx as int)),
{
    if args.len() <= idx {
        return Err("Specify automaton type!");
    }
    let head = args[idx].as_str();
    if str_eq(head, "elementary") {
        parse_elementary_automaton(args, idx + 1)
    } else if str_eq(head, "cyclic") {
        parse_cyclic_automaton(args, idx + 1)
    } else if str_eq(head, "life") {
        parse_life_automaton(args, idx + 1)
    } else {
        Err("Unknown automaton type!")
    }
}

/// True when the string holds a character that fits no explicit state list.
fn has_non_state_char_exec(s: &str) -> (r: bool)
    ensures
        r == has_non_state_char(s@),
{
    let n = s.unicode_len();
    let mut i: usize = 0;
    while i < n
        invariant
            i <= n,
            n == s@.len(),
            forall|j: int|
                0 <= j < i ==> (is_dec_digit(#[trigger] s@[j]) || s@[j] == ',' || s@[j] == '*'),
        decreases n - i,
    {
        let c = s.get_char(i);
        let v = c as u32;
        let is_digit = 48 <= v && v <= 57;
        if !(is_digit || c == ',' || c == '*') {
            return true;
        }
        i = i + 1;
    }
    false
}

/// Parses the optional state-list argument of `random`.
pub fn parse_init_random(args: &Vec<String>, idx: usize, automaton_type: &AutomatonType) -> (r:
    Result<(InitType, usize), &'static str>)
    ensures
        it_step_matches(
            r,
            spec_parse_init_random(
                crate::config::args_views(*args),
                idx as int,
                automaton_type_view(*automaton_type),
            ),
        ),
{
    let take_default = if args.len() <= idx {
        true
    } else if has_non_state_char_exec(args[idx].as_str()) {
        true
    } else if str_eq(args[idx].as_str(), "default") {
        true
    } else {
        false
    };
    if take_default {
        let states: Vec<u32> = match automaton_type {
            AutomatonType::Cyclic(_, _, st) => default_cyclic_states(*st),
            _ => {
                let mut v: Vec<u32> = Vec::new();
                v.push(0);
                v.push(1);
                proof {
                    assert(v@ =~= seq![0u32, 1u32]);
                }
                v
            },
        };
        let ni = if idx < args.len() && str_eq(args[idx].as_str(), "default") {
            idx + 1
        } else {
            idx
        };
        return Ok((InitType::Random(states), ni));
    }
    let cparts = split_str(args[idx].as_str(), ',');
    let ghost cviews = split_seq(args@[idx as int]@, ',');
    let mut built: Vec<u32> = Vec::new();
    let mut i: usize = 0;
    proof {
        assert(cviews.skip(0) =~= cviews);
        if let Ok(rest) = spec_state_list(cviews) {
            assert(built@ + rest =~= rest);
        }
    }
    while i < cparts.len()
        invariant
            i <= cparts@.len(),
            idx < args@.len(),
            !has_non_state_char(args@[idx as int]@),
            !(args@[idx as int]@ == "default"@),
            cviews == split_seq(args@[idx as int]@, ','),
            str_views(cparts) =~~= cviews,
            spec_state_list(cviews) == (match spec_state_list(cviews.skip(i as int)) {
                Ok(rest) => Ok::<Seq<u32>, ()>(built@ + rest),
                Err(e) => Err::<Seq<u32>, ()>(e),
            }),
        decreases cparts@.len() - i,
    {
        let ghost restv = cviews.skip(i as int);
        proof {
            assert(restv.len() > 0);
            assert(restv[0] == cviews[i as int]);
            assert(cviews[i as int] == cparts@[i as int]@);
            assert(restv.skip(1) =~= cviews.skip(i as int + 1));
        }
        match crate::config::parse_init_state(cparts[i].as_str()) {
            Ok((v, c)) => {
                let ghost base = built@;
                let mut j: u32 = 0;
                while j < c
                    invariant
                        j <= c,
                        built@ =~= base + spec_repeat(v, j as int),
                    decreases c - j,
                {
                    built.push(v);
                    proof {
                        assert(built@ =~= base + spec_repeat(v, j as int + 1));
                    }
                    j = j + 1;
                }
                proof {
                    if let Ok(rest) = spec_state_list(cviews.skip(i as int + 1)) {
                        assert(base + (spec_repeat(v, c as int) + rest) =~= built@ + rest);
                    }
                }
            },
            Err(_) => {
                return Err("Invalid INIT_STATES value!");
            },
        }
        i = i + 1;
    }
    proof {
        assert(cviews.skip(i as int) =~= Seq::<Seq<char>>::empty());
        assert(built@ + Seq::<u32>::empty() =~= built@);
    }
    Ok((InitType::Random(built), idx + 1))
}

/// The default state list of a cyclic automaton: every state below its
/// state count.
fn default_cyclic_states(states: u32) -> (r: Vec<u32>)
    ensures
        r@ =~= Seq::new(states as nat, |i: int| i as u32),
{
    let mut v: Vec<u32> = Vec::new();
    let mut i: u32 = 0;
    while i < states
        invariant
            i <= states,
            v@.len() == i,
            forall|k: int| 0 <= k < i ==> v@[k] == k as u32,
        decreases states - i,
    {
        v.push(i);
        i = i + 1;
    }
    v
}

/// Parses the points argument for the one-dimensional automaton.
pub fn parse_points1d(args: &Vec<String>, idx: usize) -> (r: Result<(InitType, usize), ()>)
    ensures
        match r {
            Ok((t, ni)) => spec_parse_points1d(crate::config::args_views(*args), idx as int)
                == Ok::<(InitTypeView, int), ()>((init_type_view(t), ni as int)),
            Err(e) => spec_parse_points1d(crate::config::args_views(*args), idx as int) == Err::<
                (InitTypeView, int),
                (),
            >(e),
        },
{
    if args.len() <= idx {
        return Err(());
    }
    let (vals, ni) = match parse_u32_csv_at(args, idx) {
        Ok(p) => p,
        Err(e) => {
            return Err(e);
        },
    };
    let mut indexes: Vec<usize> = Vec::new();
    let mut i: usize = 0;
    while i < vals.len()
        invariant
            i <= vals@.len(),
            indexes@.len() == i,
            forall|k: int| 0 <= k < i ==> #[trigger] indexes@[k] == vals@[k] as usize,
        decreases vals@.len() - i,
    {
        let x = vals[i];
        indexes.push(x as usize);
        i = i + 1;
    }
    proof {
        assert(indexes@ =~= vals@.map_values(|x: u32| x as usize));
    }
    Ok((InitType::Points1D(indexes), ni))
}

/// Parses the points argument for a two-dimensional automaton.
pub fn parse_points2d(args: &Vec<String>, idx: usize) -> (r: Result<(InitType, usize), ()>)
    ensures
        match r {
            Ok((t, ni)) => spec_parse_points2d(crate::config::args_views(*args), idx as int)
                == Ok::<(InitTypeView, int), ()>((init_type_view(t), ni as int)),
            Err(e) => spec_parse_points2d(crate::config::args_views(*args), idx as int) == Err::<
                (InitTypeView, int),
                (),
            >(e),
        },
{
    if args.len() <= idx {
        return Err(());
    }
    match crate::config::parse_points2d(args[idx].as_str()) {
        Ok(t) => match t {
            crate::config::InitType::Points2D(points) => Ok(
                (InitType::Points2D(points), idx + 1),
            ),
            _ => {
                proof {
                    assert(false);
                }
                Err(())
            },
        },
        Err(e) => Err(e),
    }
}

/// Parses the points argument, by the automaton's dimension.
pub fn parse_init_points(args: &Vec<String>, idx: usize, automaton_type: &AutomatonType) -> (r:
    Result<(InitType, usize), &'static str>)
    ensures
        it_step_matches(
            r,
            spec_parse_init_points(
                crate::config::args_views(*args),
                idx as int,
                automaton_type_view(*automaton_type),
            ),
        ),
{
    if args.len() <= idx {
        return Err("INIT_POINTS is not set!");
    }
    let is_elementary = match automaton_type {
        AutomatonType::Elementary(_) => true,
        _ => false,
    };
    let sub = if is_elementary {
        parse_points1d(args, idx)
    } else {
        parse_points2d(args, idx)
    };
    match sub {
        Ok(p) => Ok(p),
        Err(_) => Err("Invalid INIT_POINTS value!"),
    }
}

/// Parses the initialization arguments.
pub fn parse_init_type(args: &Vec<String>, idx: usize, automaton_type: &AutomatonType) -> (r:
    Result<(InitType, usize), &'static str>)
    ensures
        it_step_matches(
            r,
            spec_parse_init_type(
                crate::config::args_views(*args),
                idx as int,
                automaton_type_view(*automaton_type),
            ),
        ),
{
    if args.len() <= idx {
        return Err("Specify initialization type!");
    }
    let head = args[idx].as_str();
    if str_eq(head, "random") {
        parse_init_random(args, idx + 1, automaton_type)
    } else if str_eq(head, "points") {
        parse_init_points(args, idx + 1, automaton_type)
    } else {
        Err("Unknown initialization type!")
    }
}

/// Parses the optional size argument.
pub fn parse_size(args: &Vec<String>, idx: usize) -> (r: Result<
    (Option<(u32, u32)>, usize),
    &'static str,
>)
    ensures
        match r {
            Ok((v, ni)) => spec_parse_size(crate::config::args_views(*args), idx as int) == Ok::<
                (Option<(u32, u32)>, int),
                Seq<char>,
            >((v, ni as int)),
            Err(m) => spec_parse_size(crate::config::args_views(*args), idx as int) == Err::<
                (Option<(u32, u32)>, int),
                Seq<char>,
            >(m@),
        },
{
    if args.len() <= idx {
        return Ok((None, idx));
    }
    let st = args[idx].as_str();
    let n = st.unicode_len();
    let xpos = match crate::digits::find_char(st, 'x') {
        Some(p) => p,
        None => {
            return Err("Size must me specified as WIDTHxHEIGHT!");
        },
    };
    let ws = st.substring_char(0, xpos);
    let hs = st.substring_char(xpos + 1, n);
    proof {
        assert(ws@ =~= st@.take(xpos as int));
        assert(hs@ =~= st@.skip(xpos as int + 1));
    }
    let w = match parse_u32_str(ws) {
        Some(v) => v,
        None => {
            return Err("Invalid width!");
        },
    };
    let h = match parse_u32_str(hs) {
        Some(v) => v,
        None => {
            return Err("Invalid height!");
        },
    };
    Ok((Some((w, h)), idx + 1))
}

/// Parses the trailing window arguments: size, cell width and delay.
pub fn parse_sdl_params(args: &Vec<String>, idx: usize) -> (r: Result<
    (Option<(u32, u32)>, Option<u32>, u32, usize),
    &'static str,
>)
    ensures
        match r {
            Ok((size, cw, delay, ni)) => spec_parse_sdl_params(
                crate::config::args_views(*args),
                idx as int,
            ) == Ok::<(Option<(u32, u32)>, Option<u32>, u32, int), Seq<char>>(
                (size, cw, delay, ni as int),
            ),
            Err(m) => spec_parse_sdl_params(crate::config::args_views(*args), idx as int) == Err::<
                (Option<(u32, u32)>, Option<u32>, u32, int),
                Seq<char>,
            >(m@),
        },
{
    let (size, idx) = match parse_size(args, idx) {
        Ok(p) => p,
        Err(m) => {
            return Err(m);
        },
    };
    if args.len() <= idx {
        return Ok((size, None, 5, idx));
    }
    let (cell_width, idx) = match parse_u32(args, idx) {
        Ok(p) => p,
        Err(_) => {
            return Err("Invalid CELL_WIDTH value!");
        },
    };
    if args.len() <= idx {
        return Ok((size, Some(cell_width), 5, idx));
    }
    let (delay, idx) = match parse_u32(args, idx) {
        Ok(p) => p,
        Err(_) => {
            return Err("Invalid DELAY value!");
        },
    };
    Ok((size, Some(cell_width), delay, idx))
}

/// Parses a whole argument list, the leading program name skipped.
pub fn parse_args(args: Vec<String>) -> (r: Result<Options, &'static str>)
    ensures
        match r {
            Ok(o) => spec_parse_args(crate::config::args_views(args)) == Ok::<
                OptionsView,
                Seq<char>,
            >(options_view(o)),
            Err(m) => spec_parse_args(crate::config::args_views(args)) == Err::<
                OptionsView,
                Seq<char>,
            >(m@),
        },
{
    let (automaton_type, idx) = match parse_automaton_type(&args, 1) {
        Ok(p) => p,
        Err(m) => {
            return Err(m);
        },
    };
    let (init_type, idx) = match parse_init_type(&args, idx, &automaton_type) {
        Ok(p) => p,
        Err(m) => {
            return Err(m);
        },
    };
    let (size, cell_width, delay, idx) = match parse_sdl_params(&args, idx) {
        Ok(p) => p,
        Err(m) => {
            return Err(m);
        },
    };
    if idx < args.len() {
        return Err("Trailing args!");
    }
    Ok(Options { automaton_type, init_type, size, cell_width, delay })
}

} // verus!
