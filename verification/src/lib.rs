use vstd::prelude::*;

pub mod config;
pub mod digits;
pub mod flags;
pub mod gen;
pub mod nb;
pub mod types;
pub mod view;

use digits::{char_of_digit, char_to_digit, digit_val, push_char};
use types::{cells1_bounded, grid2_wf, grid_view, seq_has, Cell};
use vstd::arithmetic::power::{lemma_pow_adds, lemma_pow_increases, lemma_pow_positive, pow};

verus! {

/// Why a rule could not be built from the given parameters.
#[derive(Debug, PartialEq, Eq, Structural)]
pub enum RuleError {
    /// The radius was zero.
    ZeroRadius,
    /// The state count lay outside 2 to 36.
    StatesOutOfRange,
    /// The rule table would not fit: `states^(2*radius+1)` overflows the
    /// indexing type.
    ParamsTooBig,
    /// The code does not hold one digit for every neighborhood.
    InvalidCodeLength,
    /// The code holds a character that is not a digit in base `states`;
    /// the offending character and the base.
    InvalidDigit(char, u8),
}

/// One base raised to another, at most `b2^e`, is monotonic in the base.
proof fn lemma_pow_base_le(b1: nat, b2: nat, e: nat)
    requires
        1 <= b1 <= b2,
    ensures
        pow(b1 as int, e) <= pow(b2 as int, e),
    decreases e,
{
    reveal(pow);
    if e > 0 {
        lemma_pow_base_le(b1, b2, (e - 1) as nat);
        lemma_pow_positive(b1 as int, (e - 1) as nat);
        assert(b1 * pow(b1 as int, (e - 1) as nat) <= b2 * pow(b2 as int, (e - 1) as nat))
            by (nonlinear_arith)
            requires
                1 <= b1 <= b2,
                0 < pow(b1 as int, (e - 1) as nat) <= pow(b2 as int, (e - 1) as nat),
        ;
    }
}

/// The number of entries of a rule table for the given parameters.
pub open spec fn rule_table_size(radius: int, states: int) -> int {
    pow(states, (2 * radius + 1) as nat)
}

/// The neighborhood code accumulated left to right over window positions
/// `[from, to)` of a ring of `width` cells, starting from `acc`: each step
/// shifts the code one base-`states` digit left and adds the wrapped cell.
pub open spec fn code_acc(
    cells: Seq<Cell>,
    width: int,
    states: int,
    from: int,
    to: int,
    acc: int,
) -> int
    decreases to - from,
{
    if from >= to {
        acc
    } else {
        code_acc(cells, width, states, from + 1, to, acc * states + cells[from % width])
    }
}

/// The encoded neighborhood of the cell at `idx`: the `2*radius+1` cells
/// centered there, wrapped toroidally, read as base-`states` digits with the
/// leftmost cell most significant.
pub open spec fn window_code(
    cells: Seq<Cell>,
    width: int,
    states: int,
    idx: int,
    radius: int,
) -> int {
    code_acc(cells, width, states, idx - radius, idx + radius + 1, 0)
}

/// A generic 1-D transition rule: a lookup table indexed by the encoded
/// neighborhood, as built by `get_ca1_rule`.
#[derive(Debug)]
pub struct CA1Rule {
    pub radius: usize,
    pub states: u32,
    pub table: Vec<Cell>,
}

impl CA1Rule {
    /// A well-formed rule: the table holds one next state below `states`
    /// for every encodable neighborhood.
    pub open spec fn wf(self) -> bool {
        &&& 1 <= self.radius
        &&& 2 <= self.states <= 36
        &&& self.table@.len() == rule_table_size(self.radius as int, self.states as int)
        &&& forall|k: int| 0 <= k < self.table@.len() ==> #[trigger] self.table@[k] < self.states
    }

    /// The next state of the cell at `idx`: the table entry of its encoded
    /// neighborhood.
    pub open spec fn spec_next(self, cells: Seq<Cell>, width: int, idx: int) -> Cell {
        self.table@[window_code(cells, width, self.states as int, idx, self.radius as int)]
    }

    /// A well-formed rule table fits the indexing type, which bounds the
    /// radius itself.
    pub proof fn lemma_radius_bound(self)
        requires
            self.wf(),
            self.table@.len() <= usize::MAX,
        ensures
            self.radius <= 31,
    {
        let e = (2 * self.radius + 1) as nat;
        lemma_pow_base_le(2, self.states as nat, e);
        vstd::arithmetic::power2::lemma2_to64();
        vstd::arithmetic::power2::lemma2_to64_rest();
        vstd::arithmetic::power2::lemma_pow2(64);
        assert(usize::MAX < pow(2, 64));
        if 2 * self.radius + 1 >= 64 {
            lemma_pow_increases(2, 64, e);
            assert(pow(2, e) >= pow(2, 64));
            assert(false);
        }
    }

    /// Every accumulated code over cells below `states` stays below
    /// `acc_bound * states^(to-from)` when it starts below `acc_bound`.
    proof fn lemma_code_acc_bound(
        cells: Seq<Cell>,
        width: int,
        states: int,
        from: int,
        to: int,
        acc: int,
    )
        requires
            from <= to,
            1 <= width,
            2 <= states,
            cells.len() == width,
            cells1_bounded(cells, states),
            0 <= acc,
        ensures
            code_acc(cells, width, states, from, to, acc) < (acc + 1) * pow(
                states,
                (to - from) as nat,
            ),
            code_acc(cells, width, states, from, to, acc) >= 0,
        decreases to - from,
    {
        reveal(pow);
        let e = (to - from) as nat;
        lemma_pow_positive(states, e);
        if from >= to {
            assert((acc + 1) * pow(states, 0) == acc + 1) by (nonlinear_arith)
                requires
                    pow(states, 0) == 1,
            ;
        } else {
            let c = cells[from % width] as int;
            vstd::arithmetic::div_mod::lemma_mod_bound(from, width);
            let acc2 = acc * states + c;
            assert(0 <= c < states);
            assert(0 <= acc2 && acc2 + 1 <= (acc + 1) * states) by (nonlinear_arith)
                requires
                    0 <= acc,
                    0 <= c < states,
                    acc2 == acc * states + c,
            ;
            Self::lemma_code_acc_bound(cells, width, states, from + 1, to, acc2);
            let e1 = (to - from - 1) as nat;
            lemma_pow_positive(states, e1);
            assert((acc2 + 1) * pow(states, e1) <= ((acc + 1) * states) * pow(states, e1))
                by (nonlinear_arith)
                requires
                    0 < pow(states, e1),
                    acc2 + 1 <= (acc + 1) * states,
                    0 <= acc2,
            ;
            assert(pow(states, e) == states * pow(states, e1));
            assert(((acc + 1) * states) * pow(states, e1) == (acc + 1) * (states * pow(states, e1)))
                by (nonlinear_arith)
            ;
        }
    }

    /// Applies the rule to the cell at `idx` of a width-`width` ring.
    pub fn next_state(&self, cells: &Vec<Cell>, width: usize, idx: usize) -> (r: Cell)
        requires
            self.wf(),
            cells@.len() == width,
            1 <= width <= i64::MAX - 64,
            idx < width,
            cells1_bounded(cells@, self.states as int),
        ensures
            r == self.spec_next(cells@, width as int, idx as int),
            r < self.states,
    {
        let table_len = self.table.len();
        proof {
            self.lemma_radius_bound();
        }
        let radius = self.radius as i64;
        let states = self.states as usize;
        let idx_sgn = idx as i64;
        let idx_begin = idx_sgn - radius;
        let idx_end = idx_sgn + radius + 1;
        let ghost target = window_code(
            cells@,
            width as int,
            states as int,
            idx as int,
            self.radius as int,
        );
        proof {
            reveal(pow);
            Self::lemma_code_acc_bound(
                cells@,
                width as int,
                states as int,
                idx_begin as int,
                idx_end as int,
                0,
            );
            assert((0 + 1) * pow(states as int, (2 * self.radius + 1) as nat) == pow(
                states as int,
                (2 * self.radius + 1) as nat,
            )) by (nonlinear_arith);
        }
        let mut nb_code: usize = 0;
        let mut i: i64 = idx_begin;
        while i < idx_end
            invariant
                self.wf(),
                cells@.len() == width,
                1 <= width <= i64::MAX - 64,
                idx < width,
                cells1_bounded(cells@, self.states as int),
                idx_begin == idx - self.radius,
                idx_end == idx + self.radius + 1,
                states == self.states,
                idx_begin <= i <= idx_end,
                0 <= nb_code,
                nb_code < pow(states as int, (i - idx_begin) as nat),
                target == code_acc(
                    cells@,
                    width as int,
                    states as int,
                    i as int,
                    idx_end as int,
                    nb_code as int,
                ),
                table_len == self.table@.len(),
                target < table_len,
            decreases idx_end - i,
        {
            let j = nb::wrap_idx(i, width) as usize;
            let state = cells[j] as usize;
            proof {
                reveal(pow);
                let e_done = (i - idx_begin) as nat;
                let e_next = (i + 1 - idx_begin) as nat;
                let e_rest = (idx_end - i - 1) as nat;
                lemma_pow_positive(states as int, e_done);
                lemma_pow_positive(states as int, e_rest);
                assert(pow(states as int, e_next) == states * pow(states as int, e_done));
                assert(nb_code * states + state < states * pow(states as int, e_done))
                    by (nonlinear_arith)
                    requires
                        0 <= nb_code < pow(states as int, e_done),
                        0 <= state < states,
                ;
                lemma_pow_adds(states as int, e_next, e_rest);
                lemma_pow_increases(states as nat, e_next, (2 * self.radius + 1) as nat);
                lemma_pow_positive(states as int, e_rest);
                assert(pow(states as int, e_next) <= pow(states as int, e_next) * pow(
                    states as int,
                    e_rest,
                )) by (nonlinear_arith)
                    requires
                        0 < pow(states as int, e_next),
                        0 < pow(states as int, e_rest),
                ;
            }
            nb_code = nb_code * states + state;
            i = i + 1;
        }
        self.table[nb_code]
    }
}

/// Parameters from which a rule table can actually be built: radius and
/// state count in range, and the table small enough to index.
pub open spec fn ca1_params_ok(radius: u8, states: u8) -> bool {
    &&& radius >= 1
    &&& 2 <= states <= 36
    &&& rule_table_size(radius as int, states as int) <= usize::MAX
}

/// True when every character of the code is a digit below `states`; offsets
/// count from the right, least significant first.
pub open spec fn code_valid(s: Seq<char>, states: int) -> bool {
    forall|t: int| 0 <= t < s.len() ==> digit_val(#[trigger] s[s.len() - 1 - t]) < states
}

/// The rule table a valid code denotes: entry `k` holds the value of the
/// `k`-th digit of the code counted from the right.
pub open spec fn decoded_table(s: Seq<char>) -> Seq<Cell> {
    Seq::new(s.len(), |k: int| digit_val(s[s.len() - 1 - k]) as u32)
}

/// The offset from the right of the first code character, scanning right to
/// left, that is not a digit below `states`; the code length when every
/// character is one.
pub open spec fn first_bad_offset(s: Seq<char>, states: int, i: int) -> int
    decreases s.len() - i,
{
    if i < 0 || i >= s.len() {
        s.len() as int
    } else if digit_val(s[s.len() - 1 - i]) >= states {
        i
    } else {
        first_bad_offset(s, states, i + 1)
    }
}

/// A code of `len` digits below `base`, drawn at random.
fn get_random_ca1_code(len: usize, base: usize) -> (code: String)
    requires
        2 <= base <= 36,
    ensures
        code@.len() == len,
        forall|j: int| 0 <= j < len ==> digit_val(#[trigger] code@[j]) < base,
{
    let mut code = String::new();
    let mut i: usize = 0;
    while i < len
        invariant
            2 <= base <= 36,
            i <= len,
            code@.len() == i,
            forall|j: int| 0 <= j < i ==> digit_val(#[trigger] code@[j]) < base,
        decreases len - i,
    {
        let d = gen::random_below(base);
        let c = char_of_digit(d as u32);
        push_char(&mut code, c);
        i = i + 1;
    }
    code
}

/// The character view of an optional code string.
pub open spec fn code_view(code: Option<String>) -> Option<Seq<char>> {
    match code {
        Option::Some(s) => Option::Some(s@),
        Option::None => Option::None,
    }
}

/// What building a 1-D rule from the given parameters must yield: each
/// rejection exactly on the inputs that deserve it, and otherwise a
/// well-formed rule whose table decodes the supplied code.
pub open spec fn rule_build_spec(
    radius: u8,
    states: u8,
    code: Option<Seq<char>>,
    r: Result<CA1Rule, RuleError>,
) -> bool {
    &&& (r matches Err(RuleError::ZeroRadius) <==> radius < 1)
    &&& (radius >= 1 ==> (r matches Err(RuleError::StatesOutOfRange) <==> !(2 <= states <= 36)))
    &&& (radius >= 1 && 2 <= states <= 36 ==> (r matches Err(RuleError::ParamsTooBig)
        <==> rule_table_size(radius as int, states as int) > usize::MAX))
    &&& (ca1_params_ok(radius, states) ==> match code {
        Option::Some(s) => {
            &&& (r matches Err(RuleError::InvalidCodeLength) <==> s.len() != rule_table_size(
                radius as int,
                states as int,
            ))
            &&& s.len() == rule_table_size(radius as int, states as int) ==> {
                &&& (r is Ok <==> code_valid(s, states as int))
                &&& !code_valid(s, states as int) ==> r == Err::<CA1Rule, RuleError>(
                    RuleError::InvalidDigit(
                        s[s.len() - 1 - first_bad_offset(s, states as int, 0)],
                        states,
                    ),
                )
            }
            &&& r matches Ok(rule) ==> {
                &&& rule.table@ == decoded_table(s)
                &&& rule.radius == radius
                &&& rule.states == states
                &&& rule.wf()
            }
        },
        Option::None => {
            &&& r is Ok
            &&& r matches Ok(rule) ==> {
                &&& rule.radius == radius
                &&& rule.states == states
                &&& rule.wf()
            }
        },
    })
}

/// Builds the generic base-`states` radius-`radius` 1-D rule from the given
/// code, or from a code drawn at random when none is given. Rejects a radius
/// of zero, a state count outside 2 to 36, parameters whose table would not
/// fit in the indexing type, a code of the wrong length, and a code with a
/// character that is no digit of the base; the table otherwise holds the
/// code's digits, least significant first.
pub fn get_ca1_rule(radius: u8, states: u8, code: Option<String>) -> (r: Result<
    CA1Rule,
    RuleError,
>)
    ensures
        rule_build_spec(radius, states, code_view(code), r),
{
    if radius < 1 {
        return Err(RuleError::ZeroRadius);
    }
    if states < 2 || states > 36 {
        return Err(RuleError::StatesOutOfRange);
    }
    let radius_us = radius as usize;
    let states_us = states as usize;

    let nb_width: usize = match radius_us.checked_mul(2) {
        Some(x) => match x.checked_add(1) {
            Some(y) => y,
            None => {
                proof {
                    assert(false);
                }
                return Err(RuleError::ParamsTooBig);
            },
        },
        None => {
            proof {
                assert(false);
            }
            return Err(RuleError::ParamsTooBig);
        },
    };

    proof {
        reveal(pow);
        assert(pow(states as int, 1) == states * pow(states as int, 0));
    }
    let mut neighborhoods: usize = states_us;
    let mut k: usize = 1;
    while k < nb_width
        invariant
            2 <= states <= 36,
            nb_width == 2 * radius + 1,
            states_us == states,
            1 <= k <= nb_width,
            neighborhoods == pow(states as int, k as nat),
        decreases nb_width - k,
    {
        neighborhoods = match neighborhoods.checked_mul(states_us) {
            Some(x) => x,
            None => {
                proof {
                    reveal(pow);
                    assert(pow(states as int, (k + 1) as nat) == states * pow(
                        states as int,
                        k as nat,
                    ));
                    vstd::arithmetic::mul::lemma_mul_is_commutative(
                        states as int,
                        pow(states as int, k as nat),
                    );
                    lemma_pow_increases(states as nat, (k + 1) as nat, (2 * radius + 1) as nat);
                }
                return Err(RuleError::ParamsTooBig);
            },
        };
        proof {
            reveal(pow);
            assert(pow(states as int, (k + 1) as nat) == states * pow(states as int, k as nat));
            vstd::arithmetic::mul::lemma_mul_is_commutative(
                states as int,
                pow(states as int, k as nat),
            );
        }
        k = k + 1;
    }

    let ghost from_random = code is None;
    let code_str: String = match code {
        Some(s) => s,
        None => get_random_ca1_code(neighborhoods, states_us),
    };

    let n = code_str.as_str().unicode_len();
    if n != neighborhoods {
        return Err(RuleError::InvalidCodeLength);
    }

    let mut rules: Vec<Cell> = gen::zero_row(neighborhoods);
    let mut i: usize = 0;
    while i < neighborhoods
        invariant
            radius >= 1,
            2 <= states <= 36,
            code_str@.len() == neighborhoods,
            code matches Some(s0) ==> code_str@ == s0@,
            from_random <==> code is None,
            from_random ==> forall|j: int|
                0 <= j < neighborhoods ==> digit_val(#[trigger] code_str@[j]) < states,
            neighborhoods == rule_table_size(radius as int, states as int),
            rules@.len() == neighborhoods,
            i <= neighborhoods,
            forall|t: int|
                0 <= t < i ==> digit_val(#[trigger] code_str@[neighborhoods - 1 - t]) < states,
            forall|t: int|
                0 <= t < i ==> #[trigger] rules@[t] == digit_val(
                    code_str@[neighborhoods - 1 - t],
                ) as u32,
            first_bad_offset(code_str@, states as int, 0) == first_bad_offset(
                code_str@,
                states as int,
                i as int,
            ),
        decreases neighborhoods - i,
    {
        let c = code_str.as_str().get_char(neighborhoods - 1 - i);
        match char_to_digit(c, states as u32) {
            Some(d) => {
                rules.set(i, d);
            },
            None => {
                proof {
                    assert(first_bad_offset(code_str@, states as int, i as int) == i);
                }
                return Err(RuleError::InvalidDigit(c, states));
            },
        }
        i = i + 1;
    }

    let result = CA1Rule { radius: radius_us, states: states as u32, table: rules };
    proof {
        assert(result.table@ =~= decoded_table(code_str@));
        assert(code_valid(code_str@, states as int));
    }
    Ok(result)
}

/// Bit `k` of an elementary rule code, as a cell state.
pub open spec fn elementary_bit(code: u8, k: int) -> Cell {
    ((code >> (k as u8)) & 1) as u32
}

/// The fixed 8-bit elementary rule for `code`: the generic rule of radius 1
/// over two states whose code is the 8-digit binary rendering of `code`, so
/// that table entry `k` holds bit `k` of `code`.
pub fn get_elementary_rule(code: u8) -> (r: CA1Rule)
    ensures
        r.wf(),
        r.radius == 1,
        r.states == 2,
        r.table@.len() == 8,
        forall|k: int| 0 <= k < 8 ==> #[trigger] r.table@[k] == elementary_bit(code, k),
{
    let mut code_str = String::new();
    let mut i: usize = 0;
    while i < 8
        invariant
            i <= 8,
            code_str@.len() == i,
            forall|j: int|
                0 <= j < i ==> digit_val(#[trigger] code_str@[j]) == elementary_bit(code, 7 - j),
        decreases 8 - i,
    {
        let sh = (7 - i) as u8;
        let bit = (code >> sh) & 1;
        proof {
            assert((code >> sh) & 1 < 2) by (bit_vector);
        }
        let c = char_of_digit(bit as u32);
        push_char(&mut code_str, c);
        i = i + 1;
    }
    proof {
        vstd::arithmetic::power2::lemma2_to64();
        vstd::arithmetic::power2::lemma_pow2(3);
        assert(rule_table_size(1, 2) == 8);
        assert(code_valid(code_str@, 2)) by {
            assert forall|t: int| 0 <= t < 8 implies digit_val(
                #[trigger] code_str@[code_str@.len() - 1 - t],
            ) < 2 by {
                assert(digit_val(code_str@[7 - t]) == elementary_bit(code, t));
                assert(elementary_bit(code, t) < 2) by {
                    let tu = t as u8;
                    assert((code >> tu) & 1 < 2) by (bit_vector);
                }
            }
        }
    }
    let r = get_ca1_rule(1, 2, Some(code_str));
    let rule = r.unwrap();
    proof {
        assert forall|k: int| 0 <= k < 8 implies #[trigger] rule.table@[k] == elementary_bit(
            code,
            k,
        ) by {
            assert(rule.table@[k] == decoded_table(code_str@)[k]);
            assert(decoded_table(code_str@)[k] == digit_val(code_str@[7 - k]) as u32);
            assert(digit_val(code_str@[7 - k]) == elementary_bit(code, 7 - (7 - k)));
        }
    }
    rule
}

/// Radius-1 neighborhood codes read the three cells of the window as
/// base-`states` digits, the left neighbor most significant.
pub proof fn lemma_window_code_radius1(cells: Seq<Cell>, width: int, states: int, idx: int)
    requires
        width >= 1,
    ensures
        window_code(cells, width, states, idx, 1) == (cells[(idx - 1) % width] * states + cells[idx
            % width]) * states + cells[(idx + 1) % width],
{
    let c0 = cells[(idx - 1) % width] as int;
    let c1 = cells[idx % width] as int;
    let c2 = cells[(idx + 1) % width] as int;
    assert(code_acc(cells, width, states, idx - 1, idx + 2, 0) == code_acc(
        cells,
        width,
        states,
        idx,
        idx + 2,
        0 * states + c0,
    ));
    assert(code_acc(cells, width, states, idx, idx + 2, c0) == code_acc(
        cells,
        width,
        states,
        idx + 1,
        idx + 2,
        c0 * states + c1,
    ));
    assert(code_acc(cells, width, states, idx + 1, idx + 2, c0 * states + c1) == code_acc(
        cells,
        width,
        states,
        idx + 2,
        idx + 2,
        (c0 * states + c1) * states + c2,
    ));
}

/// The elementary rule for `code` agrees with the generic radius-1 two-state
/// rule built from the binary rendering of `code`: on every three-cell
/// binary window it yields the bit of `code` selected by the window read in
/// binary, the left neighbor most significant.
pub proof fn lemma_elementary_next(rule: CA1Rule, code: u8, cells: Seq<Cell>, width: int, idx: int)
    requires
        rule.wf(),
        rule.radius == 1,
        rule.states == 2,
        forall|k: int| 0 <= k < 8 ==> #[trigger] rule.table@[k] == elementary_bit(code, k),
        width >= 1,
        cells.len() == width,
        cells1_bounded(cells, 2),
    ensures
        rule.spec_next(cells, width, idx) == elementary_bit(
            code,
            4 * cells[(idx - 1) % width] + 2 * cells[idx % width] + cells[(idx + 1) % width],
        ),
{
    lemma_window_code_radius1(cells, width, 2, idx);
    vstd::arithmetic::div_mod::lemma_mod_bound(idx - 1, width);
    vstd::arithmetic::div_mod::lemma_mod_bound(idx, width);
    vstd::arithmetic::div_mod::lemma_mod_bound(idx + 1, width);
    let c0 = cells[(idx - 1) % width] as int;
    let c1 = cells[idx % width] as int;
    let c2 = cells[(idx + 1) % width] as int;
    assert(window_code(cells, width, 2, idx, 1) == 4 * c0 + 2 * c1 + c2);
    vstd::arithmetic::power2::lemma2_to64();
    vstd::arithmetic::power2::lemma_pow2(3);
    assert(rule.table@.len() == 8);
}

/// A 1-D cellular automaton: a ring of cells advanced synchronously by a
/// generic rule-table transition through a private future buffer.
#[derive(Debug)]
pub struct CA1 {
    pub w: usize,
    pub cells: Vec<Cell>,
    pub future: Vec<Cell>,
    pub rule: CA1Rule,
}

impl CA1 {
    /// The transition rule the automaton was built with.
    pub open spec fn spec_rule(self) -> CA1Rule {
        self.rule
    }

    /// A well-formed automaton: matching buffer lengths, a well-formed rule,
    /// and every cell below the rule's state count.
    pub open spec fn wf(self) -> bool {
        &&& self.w == self.cells@.len()
        &&& self.future@.len() == self.w
        &&& self.w <= i64::MAX - 64
        &&& self.spec_rule().wf()
        &&& cells1_bounded(self.cells@, self.spec_rule().states as int)
    }

    /// The grid that one synchronous generation step yields: every cell's
    /// next state read from the same frozen snapshot.
    pub open spec fn step(rule: CA1Rule, cells: Seq<Cell>, w: int) -> Seq<Cell> {
        Seq::new(w as nat, |i: int| rule.spec_next(cells, w, i))
    }

    /// An automaton over the given initial cells and rule.
    pub fn new(cells: Vec<Cell>, rule: CA1Rule) -> (r: CA1)
        requires
            rule.wf(),
            cells1_bounded(cells@, rule.states as int),
            cells@.len() <= i64::MAX - 64,
        ensures
            r.wf(),
            r.w == cells@.len(),
            r.cells@ == cells@,
            r.spec_rule() == rule,
    {
        let w = cells.len();
        let future = gen::zero_row(w);
        CA1 { w, cells, future, rule }
    }

    /// An automaton under the generic 1-D rule built from the given
    /// parameters; fails exactly as the rule builder does.
    pub fn new_ca1(cells: Vec<Cell>, radius: u8, states: u8, code: Option<String>) -> (r: Result<
        CA1,
        RuleError,
    >)
        requires
            2 <= states <= 36 ==> cells1_bounded(cells@, states as int),
            cells@.len() <= i64::MAX - 64,
        ensures
            rule_build_spec(
                radius,
                states,
                code_view(code),
                match r {
                    Result::Ok(ca) => Result::Ok(ca.spec_rule()),
                    Result::Err(e) => Result::Err(e),
                },
            ),
            r matches Ok(ca) ==> {
                &&& ca.wf()
                &&& ca.w == cells@.len()
                &&& ca.cells@ == cells@
            },
    {
        let rule = match get_ca1_rule(radius, states, code) {
            Ok(rule) => rule,
            Err(e) => {
                return Err(e);
            },
        };
        Ok(CA1::new(cells, rule))
    }

    /// An automaton under the fixed 8-bit elementary rule for `code`.
    pub fn new_elementary(cells: Vec<Cell>, code: u8) -> (r: CA1)
        requires
            cells1_bounded(cells@, 2),
            cells@.len() <= i64::MAX - 64,
        ensures
            r.wf(),
            r.w == cells@.len(),
            r.cells@ == cells@,
            r.spec_rule().radius == 1,
            r.spec_rule().states == 2,
            forall|k: int|
                0 <= k < 8 ==> #[trigger] r.spec_rule().table@[k] == elementary_bit(code, k),
    {
        let rule = get_elementary_rule(code);
        CA1::new(cells, rule)
    }

    /// Advances the automaton one generation: every cell's next state is
    /// computed from the grid as it stood before the call, and no partial
    /// generation is ever observable.
    pub fn tick(&mut self)
        requires
            old(self).wf(),
        ensures
            final(self).wf(),
            final(self).w == old(self).w,
            final(self).spec_rule() == old(self).spec_rule(),
            final(self).cells@ == Self::step(
                old(self).spec_rule(),
                old(self).cells@,
                old(self).w as int,
            ),
    {
        let w = self.w;
        let ghost snapshot = self.cells@;
        let mut idx: usize = 0;
        while idx < w
            invariant
                old(self).wf(),
                self.w == w,
                w == old(self).w,
                self.rule == old(self).rule,
                self.cells@ == old(self).cells@,
                self.future@.len() == w,
                idx <= w,
                forall|i: int|
                    0 <= i < idx ==> #[trigger] self.future@[i] == old(self).rule.spec_next(
                        old(self).cells@,
                        w as int,
                        i,
                    ),
                forall|i: int|
                    0 <= i < idx ==> #[trigger] self.future@[i] < old(self).rule.states,
            decreases w - idx,
        {
            let v = self.rule.next_state(&self.cells, w, idx);
            self.future.set(idx, v);
            idx = idx + 1;
        }
        core::mem::swap(&mut self.cells, &mut self.future);
        proof {
            assert(self.cells@ =~= Self::step(
                old(self).spec_rule(),
                old(self).cells@,
                old(self).w as int,
            ));
        }
    }
}

/// Number of occurrences of `v` in `s`.
pub open spec fn count_eq(s: Seq<Cell>, v: Cell) -> int
    decreases s.len(),
{
    if s.len() == 0 {
        0
    } else {
        (if s[0] == v {
            1int
        } else {
            0int
        }) + count_eq(s.skip(1), v)
    }
}

/// A count of occurrences never exceeds the sequence length.
pub proof fn lemma_count_eq_bounds(s: Seq<Cell>, v: Cell)
    ensures
        0 <= count_eq(s, v) <= s.len(),
    decreases s.len(),
{
    if s.len() > 0 {
        lemma_count_eq_bounds(s.skip(1), v);
    }
}

/// The range of a neighborhood shape.
pub open spec fn nbh_range(nbh: nb::Neighborhood) -> int {
    match nbh {
        nb::Neighborhood::Moore(r) => r as int,
        nb::Neighborhood::VonNeumann(r) => r as int,
    }
}

/// The neighbor values of `(row, col)` under the shape, in traversal order.
pub open spec fn nbh_neighbors(
    nbh: nb::Neighborhood,
    g: Seq<Seq<Cell>>,
    h: int,
    w: int,
    row: int,
    col: int,
) -> Seq<Cell> {
    match nbh {
        nb::Neighborhood::Moore(r) => nb::moore_neighbors(g, h, w, row, col, r as int),
        nb::Neighborhood::VonNeumann(r) => nb::von_neumann_neighbors(g, h, w, row, col, r as int),
    }
}

/// The life-like next state: a dead cell is born exactly when its live
/// Moore-range-1 neighbor count is in `birth`, a live cell survives exactly
/// when that count is in `survive`.
pub open spec fn life_next(
    survive: Seq<Cell>,
    birth: Seq<Cell>,
    g: Seq<Seq<Cell>>,
    h: int,
    w: int,
    row: int,
    col: int,
) -> Cell {
    let live = count_eq(nb::moore_neighbors(g, h, w, row, col, 1), 1);
    if g[row][col] == 0 {
        if seq_has(birth, live) {
            1u32
        } else {
            0u32
        }
    } else {
        if seq_has(survive, live) {
            1u32
        } else {
            0u32
        }
    }
}

/// The cyclic next state: the cell advances to its successor state exactly
/// when at least `threshold` neighbors already hold that successor.
pub open spec fn cyclic_next(
    nbh: nb::Neighborhood,
    threshold: int,
    states: int,
    g: Seq<Seq<Cell>>,
    h: int,
    w: int,
    row: int,
    col: int,
) -> Cell {
    let cell = g[row][col];
    let next = ((cell + 1) % states) as u32;
    let cnt = count_eq(nbh_neighbors(nbh, g, h, w, row, col), next);
    if cnt >= threshold {
        next
    } else {
        cell
    }
}

/// A 2-D transition rule: life-like survive/birth counting over the Moore
/// range-1 neighborhood, or the cyclic threshold rule over a chosen shape.
#[derive(Debug)]
pub enum CA2Rule {
    Life { survive: Vec<Cell>, birth: Vec<Cell> },
    Cyclic { nbh: nb::Neighborhood, threshold: u8, states: u32 },
}

impl CA2Rule {
    /// A well-formed rule: the cyclic rule needs at least one state for its
    /// successor arithmetic.
    pub open spec fn wf(self) -> bool {
        match self {
            CA2Rule::Life { .. } => true,
            CA2Rule::Cyclic { states, .. } => states >= 1,
        }
    }

    /// The grid sizes whose neighborhood index arithmetic fits the signed
    /// coordinate type.
    pub open spec fn fits(self, h: int, w: int) -> bool {
        match self {
            CA2Rule::Life { .. } => h + 1 <= i64::MAX && w + 1 <= i64::MAX,
            CA2Rule::Cyclic { nbh, .. } => h + nbh_range(nbh) <= i64::MAX && w + nbh_range(nbh)
                <= i64::MAX,
        }
    }

    /// The grids the rule can act on: the cyclic rule reads every cell as a
    /// state below its state count.
    pub open spec fn accepts(self, g: Seq<Seq<Cell>>) -> bool {
        match self {
            CA2Rule::Life { .. } => true,
            CA2Rule::Cyclic { states, .. } => crate::types::cells2_bounded(g, states as int),
        }
    }

    /// The next state of the cell at `(row, col)`.
    pub open spec fn spec_next(
        self,
        g: Seq<Seq<Cell>>,
        h: int,
        w: int,
        row: int,
        col: int,
    ) -> Cell {
        match self {
            CA2Rule::Life { survive, birth } => life_next(survive@, birth@, g, h, w, row, col),
            CA2Rule::Cyclic { nbh, threshold, states } => cyclic_next(
                nbh,
                threshold as int,
                states as int,
                g,
                h,
                w,
                row,
                col,
            ),
        }
    }

    /// The states a step can produce: life-like rules write only 0 or 1, the
    /// cyclic rule stays below its state count.
    pub open spec fn result_ok(self, c: Cell) -> bool {
        match self {
            CA2Rule::Life { .. } => c == 0 || c == 1,
            CA2Rule::Cyclic { states, .. } => c < states,
        }
    }

    /// Applies the rule to the cell at `(row, col)` of an `h` x `w` grid.
    pub fn next_state(
        &self,
        cells: &Vec<Vec<Cell>>,
        w: usize,
        h: usize,
        row: usize,
        col: usize,
    ) -> (r: Cell)
        requires
            self.wf(),
            grid2_wf(grid_view(*cells), h as int, w as int),
            row < h,
            col < w,
            self.fits(h as int, w as int),
            self.accepts(grid_view(*cells)),
        ensures
            r == self.spec_next(grid_view(*cells), h as int, w as int, row as int, col as int),
            self.result_ok(r),
    {
        let ghost g = grid_view(*cells);
        proof {
            assert(cells@.len() == h as int);
            assert forall|y: int| 0 <= y < h implies (#[trigger] cells@[y])@.len() == w as int by {
                assert(g[y].len() == w as int);
            }
        }
        match self {
            CA2Rule::Life { survive, birth } => {
                let ghost full = nb::moore_neighbors(g, h as int, w as int, row as int, col as int, 1);
                proof {
                    nb::lemma_moore_neighbors_len(g, h as int, w as int, row as int, col as int, 1);
                    lemma_count_eq_bounds(full, 1);
                    let side = nb::nb_side(1);
                    assert(side == 3);
                    assert(side * side == 9) by (nonlinear_arith)
                        requires
                            side == 3,
                    ;
                    assert(nb::nb_square(1) == side * side);
                    assert(full.len() == 8);
                }
                let mut it = nb::MooreNeighborhoodIterator::new(cells, w, h, row, col, 1);
                let mut live: u32 = 0;
                loop
                    invariant
                        it.wf(),
                        full == nb::moore_neighbors(g, h as int, w as int, row as int, col as int, 1),
                        full.len() == 8,
                        0 <= live,
                        live + count_eq(it.remaining(), 1) == count_eq(full, 1),
                        count_eq(full, 1) <= 8,
                        0 <= count_eq(it.remaining(), 1),
                    ensures
                        live == count_eq(full, 1),
                    decreases it.remaining().len(),
                {
                    let ghost rem = it.remaining();
                    match it.next() {
                        Some(v) => {
                            proof {
                                lemma_count_eq_bounds(rem.skip(1), 1);
                            }
                            if v == 1 {
                                live = live + 1;
                            }
                        },
                        None => {
                            break;
                        },
                    }
                }
                let alive = cells[row][col];
                proof {
                    assert(cells@[row as int]@[col as int] == g[row as int][col as int]);
                }
                let res: u32 = if alive == 0 {
                    if contains_cell(birth, live) {
                        1
                    } else {
                        0
                    }
                } else {
                    if contains_cell(survive, live) {
                        1
                    } else {
                        0
                    }
                };
                proof {
                    assert(g[row as int][col as int] == alive);
                    assert(live == count_eq(full, 1));
                    assert(res == life_next(
                        survive@,
                        birth@,
                        g,
                        h as int,
                        w as int,
                        row as int,
                        col as int,
                    ));
                    assert(self.spec_next(g, h as int, w as int, row as int, col as int)
                        == life_next(
                        survive@,
                        birth@,
                        g,
                        h as int,
                        w as int,
                        row as int,
                        col as int,
                    ));
                }
                res
            },
            CA2Rule::Cyclic { nbh, threshold, states } => {
                let cell = cells[row][col];
                proof {
                    assert(cell == g[row as int][col as int]);
                    assert(g[row as int][col as int] < *states);
                }
                let next = (cell + 1) % *states;
                let threshold = *threshold;
                let ghost full = nbh_neighbors(
                    *nbh,
                    g,
                    h as int,
                    w as int,
                    row as int,
                    col as int,
                );
                let ghost mut seen: int = 0;
                let mut cnt: u8 = 0;
                proof {
                    lemma_count_eq_bounds(full, next);
                }
                match nbh {
                    nb::Neighborhood::Moore(range) => {
                        let mut it = nb::MooreNeighborhoodIterator::new(cells, w, h, row, col, *range);
                        loop
                            invariant
                                it.wf(),
                                0 <= seen,
                                seen + count_eq(it.remaining(), next) == count_eq(full, next),
                                0 <= count_eq(it.remaining(), next),
                                cnt == vstd::math::min(threshold as int, seen),
                            ensures
                                cnt == vstd::math::min(
                                    threshold as int,
                                    count_eq(full, next),
                                ),
                            decreases it.remaining().len(),
                        {
                            let ghost rem = it.remaining();
                            match it.next() {
                                Some(v) => {
                                    proof {
                                        lemma_count_eq_bounds(rem.skip(1), next);
                                        if v == next {
                                            seen = seen + 1;
                                        }
                                    }
                                    if v == next && cnt < threshold {
                                        cnt = cnt + 1;
                                    }
                                },
                                None => {
                                    break;
                                },
                            }
                        }
                    },
                    nb::Neighborhood::VonNeumann(range) => {
                        let mut it = nb::VonNeumannNeighborhoodIterator::new(
                            cells,
                            w,
                            h,
                            row,
                            col,
                            *range,
                        );
                        loop
                            invariant
                                it.wf(),
                                0 <= seen,
                                seen + count_eq(it.remaining(), next) == count_eq(full, next),
                                0 <= count_eq(it.remaining(), next),
                                cnt == vstd::math::min(threshold as int, seen),
                            ensures
                                cnt == vstd::math::min(
                                    threshold as int,
                                    count_eq(full, next),
                                ),
                            decreases it.remaining().len(),
                        {
                            let ghost rem = it.remaining();
                            match it.next() {
                                Some(v) => {
                                    proof {
                                        lemma_count_eq_bounds(rem.skip(1), next);
                                        if v == next {
                                            seen = seen + 1;
                                        }
                                    }
                                    if v == next && cnt < threshold {
                                        cnt = cnt + 1;
                                    }
                                },
                                None => {
                                    break;
                                },
                            }
                        }
                    },
                }
                if cnt >= threshold {
                    next
                } else {
                    cell
                }
            },
        }
    }
}

/// True when the vector holds the value.
fn contains_cell(v: &Vec<Cell>, x: u32) -> (r: bool)
    ensures
        r == seq_has(v@, x as int),
{
    let mut i: usize = 0;
    while i < v.len()
        invariant
            i <= v@.len(),
            forall|j: int| 0 <= j < i ==> v@[j] != x,
        decreases v@.len() - i,
    {
        if v[i] == x {
            return true;
        }
        i = i + 1;
    }
    false
}

/// The life-like 2-D rule with the given survive and birth counts.
pub fn get_life_rule(survive: Vec<Cell>, birth: Vec<Cell>) -> (r: CA2Rule)
    ensures
        r == (CA2Rule::Life { survive, birth }),
{
    CA2Rule::Life { survive, birth }
}

/// The cyclic 2-D rule over the given neighborhood, threshold and state
/// count; a state count of zero has no successor arithmetic and is refused.
pub fn get_cyclic_rule(nbh: nb::Neighborhood, threshold: u8, states: u32) -> (r: CA2Rule)
    requires
        states >= 1,
    ensures
        r == (CA2Rule::Cyclic { nbh, threshold, states }),
{
    CA2Rule::Cyclic { nbh, threshold, states }
}

/// A 2-D cellular automaton: a toroidal grid advanced synchronously by a
/// life-like or cyclic rule through a private future buffer.
#[derive(Debug)]
pub struct CA2 {
    pub w: usize,
    pub h: usize,
    pub cells: Vec<Vec<Cell>>,
    pub future: Vec<Vec<Cell>>,
    pub rule: CA2Rule,
}

impl CA2 {
    /// The transition rule the automaton was built with.
    pub open spec fn spec_rule(self) -> CA2Rule {
        self.rule
    }

    /// A well-formed automaton: a non-empty rectangular grid the rule can
    /// act on, and a future buffer of the same shape.
    pub open spec fn wf(self) -> bool {
        &&& 1 <= self.h
        &&& grid2_wf(grid_view(self.cells), self.h as int, self.w as int)
        &&& grid2_wf(grid_view(self.future), self.h as int, self.w as int)
        &&& self.rule.wf()
        &&& self.rule.fits(self.h as int, self.w as int)
        &&& self.rule.accepts(grid_view(self.cells))
    }

    /// The grid that one synchronous generation step yields: every cell's
    /// next state read from the same frozen snapshot.
    pub open spec fn step(rule: CA2Rule, g: Seq<Seq<Cell>>, h: int, w: int) -> Seq<Seq<Cell>> {
        Seq::new(h as nat, |row: int| Seq::new(w as nat, |col: int| rule.spec_next(g, h, w, row, col)))
    }

    /// An automaton over the given initial grid and rule.
    pub fn new(cells: Vec<Vec<Cell>>, rule: CA2Rule) -> (r: CA2)
        requires
            cells@.len() >= 1,
            grid2_wf(grid_view(cells), cells@.len() as int, cells@[0]@.len() as int),
            rule.wf(),
            rule.fits(cells@.len() as int, cells@[0]@.len() as int),
            rule.accepts(grid_view(cells)),
        ensures
            r.wf(),
            r.h == cells@.len(),
            r.w == cells@[0]@.len(),
            grid_view(r.cells) == grid_view(cells),
            r.spec_rule() == rule,
    {
        let h = cells.len();
        let w = cells[0].len();
        let future = gen::zero_grid(w, h);
        CA2 { w, h, cells, future, rule }
    }

    /// An automaton under the life-like rule with the given counts.
    pub fn new_life(cells: Vec<Vec<Cell>>, survive: Vec<Cell>, birth: Vec<Cell>) -> (r: CA2)
        requires
            cells@.len() >= 1,
            grid2_wf(grid_view(cells), cells@.len() as int, cells@[0]@.len() as int),
            cells@.len() + 1 <= i64::MAX,
            cells@[0]@.len() + 1 <= i64::MAX,
        ensures
            r.wf(),
            r.h == cells@.len(),
            r.w == cells@[0]@.len(),
            grid_view(r.cells) == grid_view(cells),
            r.spec_rule() == (CA2Rule::Life { survive, birth }),
    {
        let rule = get_life_rule(survive, birth);
        CA2::new(cells, rule)
    }

    /// An automaton under the cyclic rule with the given shape, threshold
    /// and state count.
    pub fn new_cyclic(cells: Vec<Vec<Cell>>, nbh: nb::Neighborhood, threshold: u8, states: u32) -> (r:
        CA2)
        requires
            states >= 1,
            cells@.len() >= 1,
            grid2_wf(grid_view(cells), cells@.len() as int, cells@[0]@.len() as int),
            crate::types::cells2_bounded(grid_view(cells), states as int),
            cells@.len() + nbh_range(nbh) <= i64::MAX,
            cells@[0]@.len() + nbh_range(nbh) <= i64::MAX,
        ensures
            r.wf(),
            r.h == cells@.len(),
            r.w == cells@[0]@.len(),
            grid_view(r.cells) == grid_view(cells),
            r.spec_rule() == (CA2Rule::Cyclic { nbh, threshold, states }),
    {
        let rule = get_cyclic_rule(nbh, threshold, states);
        CA2::new(cells, rule)
    }

    /// Advances the automaton one generation: every cell's next state is
    /// computed from the grid as it stood before the call, and no partial
    /// generation is ever observable.
    pub fn tick(&mut self)
        requires
            old(self).wf(),
        ensures
            final(self).wf(),
            final(self).w == old(self).w,
            final(self).h == old(self).h,
            final(self).spec_rule() == old(self).spec_rule(),
            grid_view(final(self).cells) == Self::step(
                old(self).spec_rule(),
                grid_view(old(self).cells),
                old(self).h as int,
                old(self).w as int,
            ),
    {
        let w = self.w;
        let h = self.h;
        let ghost g0 = grid_view(old(self).cells);
        proof {
            assert(self.future@.len() == h as int);
            assert forall|r0: int| 0 <= r0 < h implies (#[trigger] self.future@[r0])@.len()
                == w as int by {
                assert(grid_view(self.future)[r0].len() == w as int);
            }
        }
        let mut row: usize = 0;
        while row < h
            invariant
                old(self).wf(),
                self.w == w,
                self.h == h,
                w == old(self).w,
                h == old(self).h,
                self.rule == old(self).rule,
                self.cells == old(self).cells,
                g0 == grid_view(old(self).cells),
                self.future@.len() == h,
                forall|r0: int| 0 <= r0 < h ==> (#[trigger] self.future@[r0])@.len() == w,
                row <= h,
                forall|y: int, x: int|
                    0 <= y < row && 0 <= x < w ==> #[trigger] self.future@[y]@[x]
                        == old(self).rule.spec_next(g0, h as int, w as int, y, x),
                forall|y: int, x: int|
                    0 <= y < row && 0 <= x < w ==> old(self).rule.result_ok(
                        #[trigger] self.future@[y]@[x],
                    ),
            decreases h - row,
        {
            let mut col: usize = 0;
            while col < w
                invariant
                    old(self).wf(),
                    self.w == w,
                    self.h == h,
                    w == old(self).w,
                    h == old(self).h,
                    self.rule == old(self).rule,
                    self.cells == old(self).cells,
                    g0 == grid_view(old(self).cells),
                    self.future@.len() == h,
                    forall|r0: int| 0 <= r0 < h ==> (#[trigger] self.future@[r0])@.len() == w,
                    row < h,
                    col <= w,
                    forall|y: int, x: int|
                        0 <= y < row && 0 <= x < w ==> #[trigger] self.future@[y]@[x]
                            == old(self).rule.spec_next(g0, h as int, w as int, y, x),
                    forall|y: int, x: int|
                        0 <= y < row && 0 <= x < w ==> old(self).rule.result_ok(
                            #[trigger] self.future@[y]@[x],
                        ),
                    forall|x: int|
                        0 <= x < col ==> #[trigger] self.future@[row as int]@[x]
                            == old(self).rule.spec_next(g0, h as int, w as int, row as int, x),
                    forall|x: int|
                        0 <= x < col ==> old(self).rule.result_ok(
                            #[trigger] self.future@[row as int]@[x],
                        ),
                decreases w - col,
            {
                let v = self.rule.next_state(&self.cells, w, h, row, col);
                gen::set_grid_cell(&mut self.future, row, col, v);
                col = col + 1;
            }
            row = row + 1;
        }
        core::mem::swap(&mut self.cells, &mut self.future);
        proof {
            let stepped = Self::step(old(self).spec_rule(), g0, h as int, w as int);
            assert forall|y: int| 0 <= y < h implies #[trigger] grid_view(self.cells)[y]
                == stepped[y] by {
                assert(grid_view(self.cells)[y] == self.cells@[y]@);
                assert(grid_view(self.cells)[y] =~= stepped[y]);
            }
            assert(grid_view(self.cells) =~= stepped);
        }
    }
}

/// A cyclic rule whose threshold exceeds the number of neighbors its shape
/// can ever produce changes no cell: the automaton is frozen at any
/// unreachable threshold, however many generations are advanced.
pub proof fn lemma_cyclic_threshold_unreachable(
    nbh: nb::Neighborhood,
    threshold: int,
    states: int,
    g: Seq<Seq<Cell>>,
    h: int,
    w: int,
    row: int,
    col: int,
)
    requires
        threshold > nb::nb_square(nbh_range(nbh)) - 1,
    ensures
        cyclic_next(nbh, threshold, states, g, h, w, row, col) == g[row][col],
{
    let range = nbh_range(nbh);
    let full = nbh_neighbors(nbh, g, h, w, row, col);
    let cell = g[row][col];
    let next = ((cell + 1) % states) as u32;
    lemma_count_eq_bounds(full, next);
    match nbh {
        nb::Neighborhood::Moore(r) => {
            nb::lemma_moore_neighbors_len(g, h, w, row, col, r as int);
        },
        nb::Neighborhood::VonNeumann(r) => {
            nb::lemma_von_neumann_from_len_le(g, h, w, row, col, r as int, 0);
        },
    }
}

/// A whole generation under such an unreachable threshold is the identity:
/// advancing the automaton any number of times leaves every cell unchanged.
pub proof fn lemma_cyclic_step_identity(
    nbh: nb::Neighborhood,
    threshold: u8,
    states: u32,
    g: Seq<Seq<Cell>>,
    h: int,
    w: int,
)
    requires
        grid2_wf(g, h, w),
        h >= 0,
        w >= 0,
        threshold > nb::nb_square(nbh_range(nbh)) - 1,
    ensures
        CA2::step(CA2Rule::Cyclic { nbh, threshold, states }, g, h, w) == g,
{
    let rule = CA2Rule::Cyclic { nbh, threshold, states };
    let stepped = CA2::step(rule, g, h, w);
    assert forall|row: int| 0 <= row < h implies #[trigger] stepped[row] == g[row] by {
        assert forall|col: int| 0 <= col < w implies #[trigger] stepped[row][col]
            == g[row][col] by {
            lemma_cyclic_threshold_unreachable(
                nbh,
                threshold as int,
                states as int,
                g,
                h,
                w,
                row,
                col,
            );
        }
        assert(stepped[row] =~= g[row]);
    }
    assert(stepped =~= g);
}

} // verus!

