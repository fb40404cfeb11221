use vstd::prelude::*;

use crate::code_view;
use crate::digits::{
    dec_value, find_idx, parse_u32_str, parse_u8_str, parse_usize_str, split_seq, split_str,
    str_eq, str_views, uint_body, uint_ok,
};
use crate::nb::Neighborhood;
use crate::types::Cell;

verus! {

/// A fully parsed automaton choice: the generic 1-D rule, the elementary
/// rule, the cyclic rule or a life-like rule.
#[derive(Debug, PartialEq, Eq)]
pub enum CAType {
    CA1 { radius: u8, states: u8, code: Option<String> },
    Elementary(u8),
    Cyclic(Neighborhood, u8, u32),
    Life(Vec<Cell>, Vec<Cell>),
}

/// A fully parsed initial-grid choice: a random fill over chosen states and
/// coordinate ranges, or explicit points.
#[derive(Debug, PartialEq, Eq)]
pub enum InitType {
    Random {
        states: Vec<Cell>,
        x1: Option<usize>,
        x2: Option<usize>,
        y1: Option<usize>,
        y2: Option<usize>,
    },
    Points1D(Vec<usize>),
    Points2D(Vec<(usize, usize)>),
}

/// Everything the engine needs from the command line.
#[derive(Debug)]
pub struct Config {
    pub ca_type: CAType,
    pub init_type: InitType,
    pub size: Option<(u32, u32)>,
    pub cell_width: Option<u8>,
    pub delay: Option<u32>,
}

/// The mathematical contents of a `CAType`.
pub enum CATypeView {
    CA1 { radius: u8, states: u8, code: Option<Seq<char>> },
    Elementary(u8),
    Cyclic(Neighborhood, u8, u32),
    Life(Seq<Cell>, Seq<Cell>),
}

/// The mathematical contents of an `InitType`.
pub enum InitTypeView {
    Random {
        states: Seq<Cell>,
        x1: Option<usize>,
        x2: Option<usize>,
        y1: Option<usize>,
        y2: Option<usize>,
    },
    Points1D(Seq<usize>),
    Points2D(Seq<(usize, usize)>),
}

/// The mathematical contents of a `Config`.
pub struct ConfigView {
    pub ca_type: CATypeView,
    pub init_type: InitTypeView,
    pub size: Option<(u32, u32)>,
    pub cell_width: Option<u8>,
    pub delay: Option<u32>,
}

/// The views of a vector of argument strings.
pub open spec fn args_views(args: Vec<String>) -> Seq<Seq<char>> {
    args@.map_values(|s: String| s@)
}

/// The view of a `CAType`.
pub open spec fn ca_type_view(t: CAType) -> CATypeView {
    match t {
        CAType::CA1 { radius, states, code } => CATypeView::CA1 {
            radius,
            states,
            code: code_view(code),
        },
        CAType::Elementary(c) => CATypeView::Elementary(c),
        CAType::Cyclic(n, th, st) => CATypeView::Cyclic(n, th, st),
        CAType::Life(s, b) => CATypeView::Life(s@, b@),
    }
}

/// The view of an `InitType`.
pub open spec fn init_type_view(t: InitType) -> InitTypeView {
    match t {
        InitType::Random { states, x1, x2, y1, y2 } => InitTypeView::Random {
            states: states@,
            x1,
            x2,
            y1,
            y2,
        },
        InitType::Points1D(v) => InitTypeView::Points1D(v@),
        InitType::Points2D(v) => InitTypeView::Points2D(v@),
    }
}

/// The view of a `Config`.
pub open spec fn config_view(c: Config) -> ConfigView {
    ConfigView {
        ca_type: ca_type_view(c.ca_type),
        init_type: init_type_view(c.init_type),
        size: c.size,
        cell_width: c.cell_width,
        delay: c.delay,
    }
}

/// What parsing the argument at `idx` as a `u8` yields: its value and the
/// next index, or a unit error as the standard parser gives.
pub open spec fn spec_parse_u8(args: Seq<Seq<char>>, idx: int) -> Result<(u8, int), ()> {
    if idx >= args.len() {
        Err(())
    } else if uint_ok(args[idx], u8::MAX as int) {
        Ok((dec_value(uint_body(args[idx])) as u8, idx + 1))
    } else {
        Err(())
    }
}

/// What parsing the argument at `idx` as a `u32` yields.
pub open spec fn spec_parse_u32(args: Seq<Seq<char>>, idx: int) -> Result<(u32, int), ()> {
    if idx >= args.len() {
        Err(())
    } else if uint_ok(args[idx], u32::MAX as int) {
        Ok((dec_value(uint_body(args[idx])) as u32, idx + 1))
    } else {
        Err(())
    }
}

/// What the generic 1-D rule arguments denote: radius, state count and
/// code, `random` standing for a synthesized code.
pub open spec fn spec_parse_ca1(args: Seq<Seq<char>>, idx: int) -> Result<
    (CATypeView, int),
    Seq<char>,
> {
    match spec_parse_u8(args, idx) {
        Err(_) => Err("RADIUS must be unsigned 8-bit integer!"@),
        Ok((radius, idx)) => match spec_parse_u8(args, idx) {
            Err(_) => Err("STATES must be unsigned 8-bit integer!"@),
            Ok((states, idx)) => if args.len() <= idx {
                Err("Specify CODE value!"@)
            } else {
                let code = if args[idx] == "random"@ {
                    None
                } else {
                    Some(args[idx])
                };
                Ok((CATypeView::CA1 { radius, states, code }, idx + 1))
            },
        },
    }
}

/// What the elementary rule argument denotes: its 8-bit code.
pub open spec fn spec_parse_elementary_ca(args: Seq<Seq<char>>, idx: int) -> Result<
    (CATypeView, int),
    Seq<char>,
> {
    match spec_parse_u8(args, idx) {
        Err(_) => Err("CODE must be unsigned 8-bit integer!"@),
        Ok((code, idx)) => Ok((CATypeView::Elementary(code), idx)),
    }
}

/// What a neighborhood argument denotes: `m` or `n` for the shape followed
/// by its decimal range.
pub open spec fn spec_parse_neighborhood(args: Seq<Seq<char>>, idx: int) -> Result<
    (Neighborhood, int),
    Seq<char>,
> {
    if args.len() <= idx {
        Err("Expected neighborhood, found end of args!"@)
    } else {
        let s = args[idx];
        if s.len() >= 1 && (s[0] == 'm' || s[0] == 'n') {
            if uint_ok(s.skip(1), u32::MAX as int) {
                let range = dec_value(uint_body(s.skip(1))) as u32;
                Ok(
                    (
                        if s[0] == 'm' {
                            Neighborhood::Moore(range)
                        } else {
                            Neighborhood::VonNeumann(range)
                        },
                        idx + 1,
                    ),
                )
            } else {
                Err("Neighborhood range must be unsigned 32-bit integer!"@)
            }
        } else {
            Err("Neighborhood must start with 'm' or 'n'!"@)
        }
    }
}

/// What the cyclic rule arguments denote: neighborhood, threshold, states.
pub open spec fn spec_parse_cyclic_ca(args: Seq<Seq<char>>, idx: int) -> Result<
    (CATypeView, int),
    Seq<char>,
> {
    match spec_parse_neighborhood(args, idx) {
        Err(m) => Err(m),
        Ok((nbh, idx)) => match spec_parse_u8(args, idx) {
            Err(_) => Err("THRESHOLD must be unsigned 8-bit integer!"@),
            Ok((threshold, idx)) => match spec_parse_u32(args, idx) {
                Err(_) => Err("STATES must be unsigned 32-bit integer!"@),
                Ok((states, idx)) => Ok((CATypeView::Cyclic(nbh, threshold, states), idx)),
            },
        },
    }
}

/// The values of a sequence of comma-separated decimal parts, or a unit
/// error if any part is no `u32`.
pub open spec fn spec_csv_parts(parts: Seq<Seq<char>>) -> Result<Seq<u32>, ()>
    decreases parts.len(),
{
    if parts.len() == 0 {
        Ok(Seq::empty())
    } else if uint_ok(parts[0], u32::MAX as int) {
        match spec_csv_parts(parts.skip(1)) {
            Ok(rest) => Ok(seq![dec_value(uint_body(parts[0])) as u32] + rest),
            Err(e) => Err(e),
        }
    } else {
        Err(())
    }
}

/// What a separated list of `u32` values denotes, `empty` standing for the
/// empty list.
pub open spec fn spec_parse_u32_csv(s: Seq<char>, sep: char) -> Result<Seq<u32>, ()> {
    if s == "empty"@ {
        Ok(Seq::empty())
    } else {
        spec_csv_parts(split_seq(s, sep))
    }
}

/// What the life-like rule arguments denote: survive and birth counts.
pub open spec fn spec_parse_life_ca(args: Seq<Seq<char>>, idx: int) -> Result<
    (CATypeView, int),
    Seq<char>,
> {
    if args.len() <= idx {
        Err("SURVIVE is not set!"@)
    } else {
        match spec_parse_u32_csv(args[idx], ',') {
            Err(_) => Err("Invalid SURVIVE value!"@),
            Ok(survive) => if args.len() <= idx + 1 {
                Err("BIRTH is not set!"@)
            } else {
                match spec_parse_u32_csv(args[idx + 1], ',') {
                    Err(_) => Err("Invalid BIRTH value!"@),
                    Ok(birth) => Ok((CATypeView::Life(survive, birth), idx + 2)),
                }
            },
        }
    }
}

/// What the free arguments denote as an automaton choice: a type word
/// followed by that type's parameters, with nothing trailing.
pub open spec fn spec_parse_ca_type(args: Seq<Seq<char>>) -> Result<CATypeView, Seq<char>> {
    if args.len() == 0 {
        Err("Specify CA type!"@)
    } else {
        let sub = if args[0] == "1"@ {
            spec_parse_ca1(args, 1)
        } else if args[0] == "elementary"@ {
            spec_parse_elementary_ca(args, 1)
        } else if args[0] == "cyclic"@ {
            spec_parse_cyclic_ca(args, 1)
        } else if args[0] == "life"@ {
            spec_parse_life_ca(args, 1)
        } else {
            Err("Unknown CA type!"@)
        };
        match sub {
            Err(m) => Err(m),
            Ok((t, idx)) => if idx < args.len() {
                Err("Trailing args!"@)
            } else {
                Ok(t)
            },
        }
    }
}

/// Parses the argument at `idx` as a `u8`.
pub fn parse_u8(args: &Vec<String>, idx: usize) -> (r: Result<(u8, usize), ()>)
    ensures
        match r {
            Ok((v, ni)) => spec_parse_u8(args_views(*args), idx as int) == Ok::<(u8, int), ()>(
                (v, ni as int),
            ),
            Err(e) => spec_parse_u8(args_views(*args), idx as int) == Err::<(u8, int), ()>(e),
        },
{
    if args.len() <= idx {
        return Err(());
    }
    match parse_u8_str(args[idx].as_str()) {
        Some(v) => Ok((v, idx + 1)),
        None => Err(()),
    }
}

/// Parses the argument at `idx` as a `u32`.
pub fn parse_u32(args: &Vec<String>, idx: usize) -> (r: Result<(u32, usize), ()>)
    ensures
        match r {
            Ok((v, ni)) => spec_parse_u32(args_views(*args), idx as int) == Ok::<(u32, int), ()>(
                (v, ni as int),
            ),
            Err(e) => spec_parse_u32(args_views(*args), idx as int) == Err::<(u32, int), ()>(e),
        },
{
    if args.len() <= idx {
        return Err(());
    }
    match parse_u32_str(args[idx].as_str()) {
        Some(v) => Ok((v, idx + 1)),
        None => Err(()),
    }
}

/// Relates an exec parse result over `CAType` to its spec mirror.
pub open spec fn ca_step_matches(
    r: Result<(CAType, usize), &'static str>,
    s: Result<(CATypeView, int), Seq<char>>,
) -> bool {
    match r {
        Ok((t, ni)) => s == Ok::<(CATypeView, int), Seq<char>>((ca_type_view(t), ni as int)),
        Err(m) => s == Err::<(CATypeView, int), Seq<char>>(m@),
    }
}

/// Parses the generic 1-D rule arguments.
pub fn parse_ca1(args: &Vec<String>, idx: usize) -> (r: Result<(CAType, usize), &'static str>)
    ensures
        ca_step_matches(r, spec_parse_ca1(args_views(*args), idx as int)),
{
    let (radius, idx) = match parse_u8(args, idx) {
        Ok(p) => p,
        Err(_) => {
            return Err("RADIUS must be unsigned 8-bit integer!");
        },
    };
    let (states, idx) = match parse_u8(args, idx) {
        Ok(p) => p,
        Err(_) => {
            return Err("STATES must be unsigned 8-bit integer!");
        },
    };
    if args.len() <= idx {
        return Err("Specify CODE value!");
    }
    let code = if str_eq(args[idx].as_str(), "random") {
        None
    } else {
        Some(args[idx].clone())
    };
    Ok((CAType::CA1 { radius, states, code }, idx + 1))
}

/// Parses the elementary rule argument.
pub fn parse_elementary_ca(args: &Vec<String>, idx: usize) -> (r: Result<
    (CAType, usize),
    &'static str,
>)
    ensures
        ca_step_matches(r, spec_parse_elementary_ca(args_views(*args), idx as int)),
{
    match parse_u8(args, idx) {
        Ok((code, idx)) => Ok((CAType::Elementary(code), idx)),
        Err(_) => Err("CODE must be unsigned 8-bit integer!"),
    }
}

/// Parses a neighborhood argument such as `m1` or `n2`.
pub fn parse_neighborhood(args: &Vec<String>, idx: usize) -> (r: Result<
    (Neighborhood, usize),
    &'static str,
>)
    ensures
        match r {
            Ok((n, ni)) => spec_parse_neighborhood(args_views(*args), idx as int) == Ok::<
                (Neighborhood, int),
                Seq<char>,
            >((n, ni as int)),
            Err(m) => spec_parse_neighborhood(args_views(*args), idx as int) == Err::<
                (Neighborhood, int),
                Seq<char>,
            >(m@),
        },
{
    if args.len() <= idx {
        return Err("Expected neighborhood, found end of args!");
    }
    let s = args[idx].as_str();
    let n = s.unicode_len();
    if n == 0 {
        return Err("Neighborhood must start with 'm' or 'n'!");
    }
    let c0 = s.get_char(0);
    if c0 != 'm' && c0 != 'n' {
        return Err("Neighborhood must start with 'm' or 'n'!");
    }
    let rest = s.substring_char(1, n);
    proof {
        assert(rest@ =~= s@.skip(1));
    }
    match parse_u32_str(rest) {
        Some(range) => if c0 == 'm' {
            Ok((Neighborhood::Moore(range), idx + 1))
        } else {
            Ok((Neighborhood::VonNeumann(range), idx + 1))
        },
        None => Err("Neighborhood range must be unsigned 32-bit integer!"),
    }
}

/// Parses the cyclic rule arguments.
pub fn parse_cyclic_ca(args: &Vec<String>, idx: usize) -> (r: Result<
    (CAType, usize),
    &'static str,
>)
    ensures
        ca_step_matches(r, spec_parse_cyclic_ca(args_views(*args), idx as int)),
{
    let (nbh, idx) = match parse_neighborhood(args, idx) {
        Ok(p) => p,
        Err(m) => {
            return Err(m);
        },
    };
    let (threshold, idx) = match parse_u8(args, idx) {
        Ok(p) => p,
        Err(_) => {
            return Err("THRESHOLD must be unsigned 8-bit integer!");
        },
    };
    let (states, idx) = match parse_u32(args, idx) {
        Ok(p) => p,
        Err(_) => {
            return Err("STATES must be unsigned 32-bit integer!");
        },
    };
    Ok((CAType::Cyclic(nbh, threshold, states), idx))
}

/// Parses a separated list of `u32` values, `empty` standing for the empty
/// list.
pub fn parse_u32_csv(s: &str, sep: char) -> (r: Result<Vec<u32>, ()>)
    ensures
        match r {
            Ok(v) => spec_parse_u32_csv(s@, sep) == Ok::<Seq<u32>, ()>(v@),
            Err(e) => spec_parse_u32_csv(s@, sep) == Err::<Seq<u32>, ()>(e),
        },
{
    if str_eq(s, "empty") {
        let r: Vec<u32> = Vec::new();
        proof {
            assert(spec_parse_u32_csv(s@, sep) == Ok::<Seq<u32>, ()>(r@)) by {
                assert(r@ =~= Seq::<u32>::empty());
            }
        }
        return Ok(r);
    }
    let parts = split_str(s, sep);
    let ghost pviews = split_seq(s@, sep);
    let mut ints: Vec<u32> = Vec::new();
    let mut i: usize = 0;
    proof {
        assert(pviews.skip(0) =~= pviews);
        if let Ok(rest) = spec_csv_parts(pviews) {
            assert(ints@ + rest =~= rest);
        }
    }
    while i < parts.len()
        invariant
            i <= parts@.len(),
            !(s@ == "empty"@),
            pviews == split_seq(s@, sep),
            str_views(parts) =~~= pviews,
            ints@.len() == i,
            spec_csv_parts(pviews) == (match spec_csv_parts(pviews.skip(i as int)) {
                Ok(rest) => Ok::<Seq<u32>, ()>(ints@ + rest),
                Err(e) => Err::<Seq<u32>, ()>(e),
            }),
        decreases parts@.len() - i,
    {
        let ghost rest_parts = pviews.skip(i as int);
        proof {
            assert(rest_parts.len() > 0);
            assert(rest_parts[0] == pviews[i as int]);
            assert(pviews[i as int] == parts@[i as int]@);
            assert(rest_parts.skip(1) =~= pviews.skip(i as int + 1));
        }
        match parse_u32_str(parts[i].as_str()) {
            Some(v) => {
                let ghost prev = ints@;
                ints.push(v);
                proof {
                    assert(prev + (seq![v] + spec_ok_rest(spec_csv_parts(pviews.skip(i as int + 1))))
                        =~= ints@ + spec_ok_rest(spec_csv_parts(pviews.skip(i as int + 1))));
                }
            },
            None => {
                return Err(());
            },
        }
        i = i + 1;
    }
    proof {
        assert(pviews.skip(i as int) =~= Seq::<Seq<char>>::empty());
        assert(spec_csv_parts(pviews.skip(i as int)) == Ok::<Seq<u32>, ()>(Seq::empty()));
        assert(ints@ + Seq::<u32>::empty() =~= ints@);
    }
    Ok(ints)
}

/// The value sequence of a successful part parse, or the empty sequence.
pub open spec fn spec_ok_rest(r: Result<Seq<u32>, ()>) -> Seq<u32> {
    match r {
        Ok(v) => v,
        Err(_) => Seq::empty(),
    }
}

/// Parses the life-like rule arguments.
pub fn parse_life_ca(args: &Vec<String>, idx: usize) -> (r: Result<
    (CAType, usize),
    &'static str,
>)
    ensures
        ca_step_matches(r, spec_parse_life_ca(args_views(*args), idx as int)),
{
    if args.len() <= idx {
        return Err("SURVIVE is not set!");
    }
    let survive = match parse_u32_csv(args[idx].as_str(), ',') {
        Ok(v) => v,
        Err(_) => {
            return Err("Invalid SURVIVE value!");
        },
    };
    if args.len() <= idx + 1 {
        return Err("BIRTH is not set!");
    }
    let birth = match parse_u32_csv(args[idx + 1].as_str(), ',') {
        Ok(v) => v,
        Err(_) => {
            return Err("Invalid BIRTH value!");
        },
    };
    Ok((CAType::Life(survive, birth), idx + 2))
}

/// Parses the free arguments as an automaton choice.
pub fn parse_ca_type(args: &Vec<String>) -> (r: Result<CAType, &'static str>)
    ensures
        match r {
            Ok(t) => spec_parse_ca_type(args_views(*args)) == Ok::<CATypeView, Seq<char>>(
                ca_type_view(t),
            ),
            Err(m) => spec_parse_ca_type(args_views(*args)) == Err::<CATypeView, Seq<char>>(m@),
        },
{
    if args.len() == 0 {
        return Err("Specify CA type!");
    }
    let head = args[0].as_str();
    let sub: Result<(CAType, usize), &'static str> = if str_eq(head, "1") {
        parse_ca1(args, 1)
    } else if str_eq(head, "elementary") {
        parse_elementary_ca(args, 1)
    } else if str_eq(head, "cyclic") {
        parse_cyclic_ca(args, 1)
    } else if str_eq(head, "life") {
        parse_life_ca(args, 1)
    } else {
        return Err("Unknown CA type!");
    };
    match sub {
        Err(m) => Err(m),
        Ok((t, idx)) => if idx < args.len() {
            Err("Trailing args!")
        } else {
            Ok(t)
        },
    }
}

/// The view of an optional string.
pub open spec fn opt_view(o: Option<String>) -> Option<Seq<char>> {
    match o {
        Option::Some(s) => Option::Some(s@),
        Option::None => Option::None,
    }
}

/// What one state part denotes: a bare value standing for itself once, or
/// `value*count` standing for `count` repetitions.
pub open spec fn spec_parse_init_state(part: Seq<char>) -> Result<(u32, u32), ()> {
    let p = find_idx(part, '*', 0);
    if p == part.len() {
        if uint_ok(part, u32::MAX as int) {
            Ok((dec_value(uint_body(part)) as u32, 1u32))
        } else {
            Err(())
        }
    } else {
        let a = part.take(p);
        let b = part.skip(p + 1);
        if uint_ok(a, u32::MAX as int) && uint_ok(b, u32::MAX as int) {
            Ok((dec_value(uint_body(a)) as u32, dec_value(uint_body(b)) as u32))
        } else {
            Err(())
        }
    }
}

/// `count` repetitions of one state value.
pub open spec fn spec_repeat(v: u32, count: int) -> Seq<u32> {
    Seq::new(count as nat, |i: int| v)
}

/// The expanded state list that a sequence of state parts denotes.
pub open spec fn spec_init_states(parts: Seq<Seq<char>>) -> Result<Seq<u32>, ()>
    decreases parts.len(),
{
    if parts.len() == 0 {
        Ok(Seq::empty())
    } else {
        match spec_parse_init_state(parts[0]) {
            Err(e) => Err(e),
            Ok((v, c)) => match spec_init_states(parts.skip(1)) {
                Err(e) => Err(e),
                Ok(rest) => Ok(spec_repeat(v, c as int) + rest),
            },
        }
    }
}

/// The state list that `uniform` denotes: every state of a cyclic automaton,
/// and the two binary states for every other kind.
pub open spec fn spec_uniform_states(ca: CATypeView) -> Seq<u32> {
    match ca {
        CATypeView::Cyclic(_, _, st) => Seq::new(st as nat, |i: int| i as u32),
        _ => seq![0u32, 1u32],
    }
}

/// What a `random` initialization string denotes: a state list (uniform or
/// explicit) and up to four fill-range bounds, the vertical ones refused
/// for the one-dimensional elementary automaton.
pub open spec fn spec_parse_init_random(s: Seq<char>, ca: CATypeView) -> Result<
    InitTypeView,
    Seq<char>,
> {
    if s.len() == 0 {
        Err("STATES is not set!"@)
    } else {
        let parts = split_seq(s, ':');
        if parts.len() > 2 {
            Err("Invalid 'random' parameters!"@)
        } else {
            let states_r: Result<Seq<u32>, Seq<char>> = if parts[0] == "uniform"@ {
                Ok(spec_uniform_states(ca))
            } else {
                match spec_init_states(split_seq(s, ',')) {
                    Ok(v) => Ok(v),
                    Err(_) => Err("Invalid STATES value!"@),
                }
            };
            match states_r {
                Err(m) => Err(m),
                Ok(states) => if parts.len() == 1 {
                    Ok(
                        InitTypeView::Random {
                            states,
                            x1: None,
                            x2: None,
                            y1: None,
                            y2: None,
                        },
                    )
                } else {
                    let rp = split_seq(parts[1], ',');
                    if !uint_ok(rp[0], usize::MAX as int) {
                        Err("random: invalid X1 value!"@)
                    } else {
                        let x1 = Some(dec_value(uint_body(rp[0])) as usize);
                        if rp.len() >= 2 && !uint_ok(rp[1], usize::MAX as int) {
                            Err("random: invalid X2 value!"@)
                        } else {
                            let x2 = if rp.len() < 2 {
                                None
                            } else {
                                Some(dec_value(uint_body(rp[1])) as usize)
                            };
                            if rp.len() >= 3 && !uint_ok(rp[2], usize::MAX as int) {
                                Err("random: invalid Y1 value!"@)
                            } else {
                                let y1 = if rp.len() < 3 {
                                    None
                                } else {
                                    Some(dec_value(uint_body(rp[2])) as usize)
                                };
                                if rp.len() >= 4 && !uint_ok(rp[3], usize::MAX as int) {
                                    Err("random: invalid Y2 value!"@)
                                } else {
                                    let y2 = if rp.len() < 4 {
                                        None
                                    } else {
                                        Some(dec_value(uint_body(rp[3])) as usize)
                                    };
                                    if (ca is Elementary) && (y1 is Some || y2 is Some) {
                                        Err("random: Y1 and Y2 values are disabled for 1D CA!"@)
                                    } else {
                                        Ok(InitTypeView::Random { states, x1, x2, y1, y2 })
                                    }
                                }
                            }
                        }
                    }
                },
            }
        }
    }
}

/// What a one-dimensional points string denotes: semicolon-separated cell
/// indexes.
pub open spec fn spec_parse_points1d(s: Seq<char>) -> Result<InitTypeView, ()> {
    match spec_parse_u32_csv(s, ';') {
        Ok(vals) => Ok(InitTypeView::Points1D(vals.map_values(|x: u32| x as usize))),
        Err(e) => Err(e),
    }
}

/// The coordinate pairs that semicolon-separated `x,y` parts denote.
pub open spec fn spec_points2d_parts(parts: Seq<Seq<char>>) -> Result<Seq<(usize, usize)>, ()>
    decreases parts.len(),
{
    if parts.len() == 0 {
        Ok(Seq::empty())
    } else {
        let sub = split_seq(parts[0], ',');
        if sub.len() != 2 {
            Err(())
        } else if uint_ok(sub[0], usize::MAX as int) && uint_ok(sub[1], usize::MAX as int) {
            match spec_points2d_parts(parts.skip(1)) {
                Err(e) => Err(e),
                Ok(rest) => Ok(
                    seq![
                        (
                            dec_value(uint_body(sub[0])) as usize,
                            dec_value(uint_body(sub[1])) as usize,
                        ),
                    ] + rest,
                ),
            }
        } else {
            Err(())
        }
    }
}

/// What a two-dimensional points string denotes.
pub open spec fn spec_parse_points2d(s: Seq<char>) -> Result<InitTypeView, ()> {
    match spec_points2d_parts(split_seq(s, ';')) {
        Ok(coords) => Ok(InitTypeView::Points2D(coords)),
        Err(e) => Err(e),
    }
}

/// What a `points` initialization string denotes: one-dimensional indexes
/// for the elementary automaton, coordinate pairs for every other kind.
pub open spec fn spec_parse_init_points(s: Seq<char>, ca: CATypeView) -> Result<
    InitTypeView,
    Seq<char>,
> {
    if s.len() == 0 {
        Err("POINTS is not set!"@)
    } else {
        let sub = if ca is Elementary {
            spec_parse_points1d(s)
        } else {
            spec_parse_points2d(s)
        };
        match sub {
            Ok(t) => Ok(t),
            Err(_) => Err("Invalid POINTS value!"@),
        }
    }
}

/// What the initialization option denotes: a uniform random fill when
/// absent, else a `random:` or `points:` string.
pub open spec fn spec_parse_init_type(opt: Option<Seq<char>>, ca: CATypeView) -> Result<
    InitTypeView,
    Seq<char>,
> {
    match opt {
        Option::None => spec_parse_init_random("uniform"@, ca),
        Option::Some(s) => if s.len() >= 7 && s.take(7) == "random:"@ {
            spec_parse_init_random(s.skip(7), ca)
        } else if s.len() >= 7 && s.take(7) == "points:"@ {
            spec_parse_init_points(s.skip(7), ca)
        } else {
            Err("Unknown initialization type!"@)
        },
    }
}

/// What the size option denotes: a `WIDTHxHEIGHT` pair when present.
pub open spec fn spec_parse_size(opt: Option<Seq<char>>) -> Result<
    Option<(u32, u32)>,
    Seq<char>,
> {
    match opt {
        Option::None => Ok(None),
        Option::Some(s) => {
            let p = find_idx(s, 'x', 0);
            if p == s.len() {
                Err("Specify size as WIDTHxHEIGHT!"@)
            } else if !uint_ok(s.take(p), u32::MAX as int) {
                Err("Invalid width!"@)
            } else if !uint_ok(s.skip(p + 1), u32::MAX as int) {
                Err("Invalid height!"@)
            } else {
                Ok(
                    Some(
                        (
                            dec_value(uint_body(s.take(p))) as u32,
                            dec_value(uint_body(s.skip(p + 1))) as u32,
                        ),
                    ),
                )
            }
        },
    }
}

/// Parses one state part such as `3` or `3*5`.
pub fn parse_init_state(part: &str) -> (r: Result<(u32, u32), ()>)
    ensures
        r == spec_parse_init_state(part@),
{
    let n = part.unicode_len();
    match crate::digits::find_char(part, '*') {
        None => match parse_u32_str(part) {
            Some(v) => Ok((v, 1)),
            None => Err(()),
        },
        Some(pos) => {
            let a = part.substring_char(0, pos);
            let b = part.substring_char(pos + 1, n);
            proof {
                assert(a@ =~= part@.take(pos as int));
                assert(b@ =~= part@.skip(pos as int + 1));
            }
            match parse_u32_str(a) {
                Some(va) => match parse_u32_str(b) {
                    Some(vb) => Ok((va, vb)),
                    None => Err(()),
                },
                None => Err(()),
            }
        },
    }
}

/// The state list a cyclic automaton fills uniformly: every state below its
/// state count.
fn uniform_cyclic_states(states: u32) -> (r: Vec<u32>)
    ensures
        r@ =~= Seq::new(states as nat, |i: int| i as u32),
{
    let mut v: Vec<u32> = Vec::new();
    let mut i: u32 = 0;
    while i < states
        invariant
            i <= states,
            v@.len() == i,
            forall|k: int| 0 <= k < i ==> v@[k] == k as u32,
        decreases states - i,
    {
        v.push(i);
        i = i + 1;
    }
    v
}

/// Parses a `random` initialization string.
pub fn parse_init_random(s: &str, ca_type: &CAType) -> (r: Result<InitType, &'static str>)
    ensures
        match r {
            Ok(t) => spec_parse_init_random(s@, ca_type_view(*ca_type)) == Ok::<
                InitTypeView,
                Seq<char>,
            >(init_type_view(t)),
            Err(m) => spec_parse_init_random(s@, ca_type_view(*ca_type)) == Err::<
                InitTypeView,
                Seq<char>,
            >(m@),
        },
{
    let n = s.unicode_len();
    if n == 0 {
        return Err("STATES is not set!");
    }
    let parts = split_str(s, ':');
    let ghost pviews = split_seq(s@, ':');
    proof {
        crate::digits::lemma_split_seq_len(s@, ':');
    }
    if parts.len() > 2 {
        return Err("Invalid 'random' parameters!");
    }

    let states: Vec<u32> = if str_eq(parts[0].as_str(), "uniform") {
        match ca_type {
            CAType::Cyclic(_, _, st) => uniform_cyclic_states(*st),
            _ => {
                let mut v: Vec<u32> = Vec::new();
                v.push(0);
                v.push(1);
                proof {
                    assert(v@ =~= seq![0u32, 1u32]);
                }
                v
            },
        }
    } else {
        let cparts = split_str(s, ',');
        let ghost cviews = split_seq(s@, ',');
        let mut built: Vec<u32> = Vec::new();
        let mut i: usize = 0;
        proof {
            assert(cviews.skip(0) =~= cviews);
            if let Ok(rest) = spec_init_states(cviews) {
                assert(built@ + rest =~= rest);
            }
        }
        while i < cparts.len()
            invariant
                i <= cparts@.len(),
                s@.len() > 0,
                split_seq(s@, ':').len() <= 2,
                !(split_seq(s@, ':')[0] == "uniform"@),
                cviews == split_seq(s@, ','),
                str_views(cparts) =~~= cviews,
                spec_init_states(cviews) == (match spec_init_states(cviews.skip(i as int)) {
                    Ok(rest) => Ok::<Seq<u32>, ()>(built@ + rest),
                    Err(e) => Err::<Seq<u32>, ()>(e),
                }),
            decreases cparts@.len() - i,
        {
            let ghost restv = cviews.skip(i as int);
            proof {
                assert(restv.len() > 0);
                assert(restv[0] == cviews[i as int]);
                assert(cviews[i as int] == cparts@[i as int]@);
                assert(restv.skip(1) =~= cviews.skip(i as int + 1));
            }
            match parse_init_state(cparts[i].as_str()) {
                Ok((v, c)) => {
                    let ghost base = built@;
                    let mut j: u32 = 0;
                    while j < c
                        invariant
                            j <= c,
                            built@ =~= base + spec_repeat(v, j as int),
                        decreases c - j,
                    {
                        built.push(v);
                        proof {
                            assert(built@ =~= base + spec_repeat(v, j as int + 1));
                        }
                        j = j + 1;
                    }
                    proof {
                        if let Ok(rest) = spec_init_states(cviews.skip(i as int + 1)) {
                            assert(base + (spec_repeat(v, c as int) + rest) =~= built@ + rest);
                        }
                    }
                },
                Err(_) => {
                    return Err("Invalid STATES value!");
                },
            }
            i = i + 1;
        }
        proof {
            assert(cviews.skip(i as int) =~= Seq::<Seq<char>>::empty());
            assert(built@ + Seq::<u32>::empty() =~= built@);
        }
        built
    };

    if parts.len() == 1 {
        return Ok(InitType::Random { states, x1: None, x2: None, y1: None, y2: None });
    }

    let rparts = split_str(parts[1].as_str(), ',');
    let ghost rp = split_seq(pviews[1], ',');
    proof {
        crate::digits::lemma_split_seq_len(pviews[1], ',');
        assert(parts@[1]@ == pviews[1]);
    }
    let x1: Option<usize> = match parse_usize_str(rparts[0].as_str()) {
        Some(v) => Some(v),
        None => {
            return Err("random: invalid X1 value!");
        },
    };
    let x2: Option<usize> = if rparts.len() < 2 {
        None
    } else {
        match parse_usize_str(rparts[1].as_str()) {
            Some(v) => Some(v),
            None => {
                return Err("random: invalid X2 value!");
            },
        }
    };
    let y1: Option<usize> = if rparts.len() < 3 {
        None
    } else {
        match parse_usize_str(rparts[2].as_str()) {
            Some(v) => Some(v),
            None => {
                return Err("random: invalid Y1 value!");
            },
        }
    };
    let y2: Option<usize> = if rparts.len() < 4 {
        None
    } else {
        match parse_usize_str(rparts[3].as_str()) {
            Some(v) => Some(v),
            None => {
                return Err("random: invalid Y2 value!");
            },
        }
    };
    let is_elementary = match ca_type {
        CAType::Elementary(_) => true,
        _ => false,
    };
    if is_elementary && (y1.is_some() || y2.is_some()) {
        return Err("random: Y1 and Y2 values are disabled for 1D CA!");
    }
    Ok(InitType::Random { states, x1, x2, y1, y2 })
}

/// Parses a one-dimensional points string.
pub fn parse_points1d(s: &str) -> (r: Result<InitType, ()>)
    ensures
        match r {
            Ok(t) => spec_parse_points1d(s@) == Ok::<InitTypeView, ()>(init_type_view(t)),
            Err(e) => spec_parse_points1d(s@) == Err::<InitTypeView, ()>(e),
        },
{
    let vals = match parse_u32_csv(s, ';') {
        Ok(v) => v,
        Err(_) => {
            return Err(());
        },
    };
    let mut indexes: Vec<usize> = Vec::new();
    let mut i: usize = 0;
    while i < vals.len()
        invariant
            i <= vals@.len(),
            indexes@.len() == i,
            forall|k: int| 0 <= k < i ==> #[trigger] indexes@[k] == vals@[k] as usize,
        decreases vals@.len() - i,
    {
        let x = vals[i];
        indexes.push(x as usize);
        i = i + 1;
    }
    proof {
        assert(indexes@ =~= vals@.map_values(|x: u32| x as usize));
    }
    Ok(InitType::Points1D(indexes))
}

/// Parses a two-dimensional points string.
pub fn parse_points2d(s: &str) -> (r: Result<InitType, ()>)
    ensures
        match r {
            Ok(t) => spec_parse_points2d(s@) == Ok::<InitTypeView, ()>(init_type_view(t)),
            Err(e) => spec_parse_points2d(s@) == Err::<InitTypeView, ()>(e),
        },
{
    let parts = split_str(s, ';');
    let ghost pviews = split_seq(s@, ';');
    let mut points: Vec<(usize, usize)> = Vec::new();
    let mut i: usize = 0;
    proof {
        assert(pviews.skip(0) =~= pviews);
        if let Ok(rest) = spec_points2d_parts(pviews) {
            assert(points@ + rest =~= rest);
        }
    }
    while i < parts.len()
        invariant
            i <= parts@.len(),
            pviews == split_seq(s@, ';'),
            str_views(parts) =~~= pviews,
            spec_points2d_parts(pviews) == (match spec_points2d_parts(pviews.skip(i as int)) {
                Ok(rest) => Ok::<Seq<(usize, usize)>, ()>(points@ + rest),
                Err(e) => Err::<Seq<(usize, usize)>, ()>(e),
            }),
        decreases parts@.len() - i,
    {
        let ghost restv = pviews.skip(i as int);
        proof {
            assert(restv.len() > 0);
            assert(restv[0] == pviews[i as int]);
            assert(pviews[i as int] == parts@[i as int]@);
            assert(restv.skip(1) =~= pviews.skip(i as int + 1));
        }
        let sub = split_str(parts[i].as_str(), ',');
        if sub.len() != 2 {
            return Err(());
        }
        let x = match parse_usize_str(sub[0].as_str()) {
            Some(v) => v,
            None => {
                return Err(());
            },
        };
        let y = match parse_usize_str(sub[1].as_str()) {
            Some(v) => v,
            None => {
                return Err(());
            },
        };
        let ghost prev = points@;
        points.push((x, y));
        proof {
            if let Ok(rest) = spec_points2d_parts(pviews.skip(i as int + 1)) {
                assert(prev + (seq![(x, y)] + rest) =~= points@ + rest);
            }
        }
        i = i + 1;
    }
    proof {
        assert(pviews.skip(i as int) =~= Seq::<Seq<char>>::empty());
        assert(points@ + Seq::<(usize, usize)>::empty() =~= points@);
    }
    Ok(InitType::Points2D(points))
}

/// Parses a `points` initialization string.
pub fn parse_init_points(s: &str, ca_type: &CAType) -> (r: Result<InitType, &'static str>)
    ensures
        match r {
            Ok(t) => spec_parse_init_points(s@, ca_type_view(*ca_type)) == Ok::<
                InitTypeView,
                Seq<char>,
            >(init_type_view(t)),
            Err(m) => spec_parse_init_points(s@, ca_type_view(*ca_type)) == Err::<
                InitTypeView,
                Seq<char>,
            >(m@),
        },
{
    if s.unicode_len() == 0 {
        return Err("POINTS is not set!");
    }
    let is_elementary = match ca_type {
        CAType::Elementary(_) => true,
        _ => false,
    };
    let sub = if is_elementary {
        parse_points1d(s)
    } else {
        parse_points2d(s)
    };
    match sub {
        Ok(t) => Ok(t),
        Err(_) => Err("Invalid POINTS value!"),
    }
}

/// Parses the initialization option; absent, it means a uniform random
/// fill.
pub fn parse_init_type(option_value: Option<String>, ca_type: &CAType) -> (r: Result<
    InitType,
    &'static str,
>)
    ensures
        match r {
            Ok(t) => spec_parse_init_type(opt_view(option_value), ca_type_view(*ca_type)) == Ok::<
                InitTypeView,
                Seq<char>,
            >(init_type_view(t)),
            Err(m) => spec_parse_init_type(opt_view(option_value), ca_type_view(*ca_type)) == Err::<
                InitTypeView,
                Seq<char>,
            >(m@),
        },
{
    match option_value {
        None => parse_init_random("uniform", ca_type),
        Some(s) => {
            let st = s.as_str();
            let n = st.unicode_len();
            if n >= 7 {
                let prefix = st.substring_char(0, 7);
                let rest = st.substring_char(7, n);
                proof {
                    assert(prefix@ =~= st@.take(7));
                    assert(rest@ =~= st@.skip(7));
                }
                if str_eq(prefix, "random:") {
                    return parse_init_random(rest, ca_type);
                }
                if str_eq(prefix, "points:") {
                    return parse_init_points(rest, ca_type);
                }
                Err("Unknown initialization type!")
            } else {
                Err("Unknown initialization type!")
            }
        },
    }
}

/// Parses the size option as `WIDTHxHEIGHT`.
pub fn parse_size(option_val: Option<String>) -> (r: Result<Option<(u32, u32)>, &'static str>)
    ensures
        match r {
            Ok(v) => spec_parse_size(opt_view(option_val)) == Ok::<Option<(u32, u32)>, Seq<char>>(
                v,
            ),
            Err(m) => spec_parse_size(opt_view(option_val)) == Err::<
                Option<(u32, u32)>,
                Seq<char>,
            >(m@),
        },
{
    match option_val {
        None => Ok(None),
        Some(s) => {
            let st = s.as_str();
            let n = st.unicode_len();
            let xpos = match crate::digits::find_char(st, 'x') {
                Some(p) => p,
                None => {
                    return Err("Specify size as WIDTHxHEIGHT!");
                },
            };
            let ws = st.substring_char(0, xpos);
            let hs = st.substring_char(xpos + 1, n);
            proof {
                assert(ws@ =~= st@.take(xpos as int));
                assert(hs@ =~= st@.skip(xpos as int + 1));
            }
            let w = match parse_u32_str(ws) {
                Some(v) => v,
                None => {
                    return Err("Invalid width!");
                },
            };
            let h = match parse_u32_str(hs) {
                Some(v) => v,
                None => {
                    return Err("Invalid height!");
                },
            };
            Ok(Some((w, h)))
        },
    }
}

/// What a whole configuration denotes: automaton choice, initialization,
/// and the optional window size, cell width and delay.
pub open spec fn spec_config_build(
    free: Seq<Seq<char>>,
    init: Option<Seq<char>>,
    size: Option<Seq<char>>,
    cell: Option<Seq<char>>,
    delay: Option<Seq<char>>,
) -> Result<ConfigView, Seq<char>> {
    match spec_parse_ca_type(free) {
        Err(m) => Err(m),
        Ok(ct) => match spec_parse_init_type(init, ct) {
            Err(m) => Err(m),
            Ok(it) => match spec_parse_size(size) {
                Err(m) => Err(m),
                Ok(sz) => {
                    let cw: Result<Option<u8>, Seq<char>> = match cell {
                        None => Ok(None),
                        Some(cs) => if uint_ok(cs, u8::MAX as int) {
                            Ok(Some(dec_value(uint_body(cs)) as u8))
                        } else {
                            Err("Cell width must be unsigned 8-bit integer!"@)
                        },
                    };
                    match cw {
                        Err(m) => Err(m),
                        Ok(cell_width) => {
                            let dl: Result<Option<u32>, Seq<char>> = match delay {
                                None => Ok(None),
                                Some(ds) => if uint_ok(ds, u32::MAX as int) {
                                    Ok(Some(dec_value(uint_body(ds)) as u32))
                                } else {
                                    Err("Delay must be unsigned 32-bit integer!"@)
                                },
                            };
                            match dl {
                                Err(m) => Err(m),
                                Ok(delay_v) => Ok(
                                    ConfigView {
                                        ca_type: ct,
                                        init_type: it,
                                        size: sz,
                                        cell_width,
                                        delay: delay_v,
                                    },
                                ),
                            }
                        },
                    }
                },
            },
        },
    }
}

impl Config {
    /// Builds a configuration from the raw option values: the free
    /// arguments and the `init`, `size`, `cell` and `delay` option strings.
    pub fn build(
        free: &Vec<String>,
        init: Option<String>,
        size: Option<String>,
        cell: Option<String>,
        delay: Option<String>,
    ) -> (r: Result<Config, &'static str>)
        ensures
            match r {
                Ok(c) => spec_config_build(
                    args_views(*free),
                    opt_view(init),
                    opt_view(size),
                    opt_view(cell),
                    opt_view(delay),
                ) == Ok::<ConfigView, Seq<char>>(config_view(c)),
                Err(m) => spec_config_build(
                    args_views(*free),
                    opt_view(init),
                    opt_view(size),
                    opt_view(cell),
                    opt_view(delay),
                ) == Err::<ConfigView, Seq<char>>(m@),
            },
    {
        let ca_type = match parse_ca_type(free) {
            Ok(t) => t,
            Err(m) => {
                return Err(m);
            },
        };
        let init_type = match parse_init_type(init, &ca_type) {
            Ok(t) => t,
            Err(m) => {
                return Err(m);
            },
        };
        let size = match parse_size(size) {
            Ok(v) => v,
            Err(m) => {
                return Err(m);
            },
        };
        let cell_width: Option<u8> = match cell {
            Some(s) => match crate::digits::parse_u8_str(s.as_str()) {
                Some(x) => Some(x),
                None => {
                    return Err("Cell width must be unsigned 8-bit integer!");
                },
            },
            None => None,
        };
        let delay: Option<u32> = match delay {
            Some(s) => match parse_u32_str(s.as_str()) {
                Some(x) => Some(x),
                None => {
                    return Err("Delay must be unsigned 32-bit integer!");
                },
            },
            None => None,
        };
        Ok(Config { ca_type, init_type, size, cell_width, delay })
    }
}

} // verus!
