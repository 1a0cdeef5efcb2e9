//! Milestone identifiers: the decimal digits of the project id followed by one
//! lower-case letter, `a` for the first milestone, `b` for the second, and so on.

use vstd::prelude::*;

verus! {

/// A milestone named by its project and its number within the project.
#[derive(Clone, Copy, PartialEq, Eq, Structural, Debug)]
pub struct MilestoneKey {
    pub project_id: u128,
    pub milestone_number: u8,
}

impl crate::table::TableKey for MilestoneKey {
    fn same(&self, other: &Self) -> (b: bool) {
        *self == *other
    }
}

/// ASCII `0`.
pub const ZERO_DIGIT: u8 = 48;

/// ASCII `a`, the letter of the first milestone of a project.
pub const FIRST_LETTER: u8 = 97;

/// Number of letters, hence of milestone numbers, that an id can carry.
pub const LETTER_COUNT: u8 = 26;

pub open spec fn is_digit(b: u8) -> bool {
    ZERO_DIGIT <= b < ZERO_DIGIT + 10
}

/// The decimal representation of `n`, most significant digit first, without
/// leading zeros.
pub open spec fn decimal(n: nat) -> Seq<u8>
    decreases n,
{
    if n < 10 {
        seq![(ZERO_DIGIT + n) as u8]
    } else {
        decimal(n / 10).push((ZERO_DIGIT + n % 10) as u8)
    }
}

/// The number that a string of decimal digits denotes.
pub open spec fn digits_value(s: Seq<u8>) -> nat
    decreases s.len(),
{
    if s.len() == 0 {
        0
    } else {
        digits_value(s.drop_last()) * 10 + (s.last() - ZERO_DIGIT) as nat
    }
}

/// A non-empty string of digits without a leading zero (but `0` itself).
pub open spec fn is_canonical_decimal(s: Seq<u8>) -> bool {
    &&& s.len() > 0
    &&& forall|i: int| 0 <= i < s.len() ==> is_digit(#[trigger] s[i])
    &&& (s.len() == 1 || s[0] != ZERO_DIGIT)
}

/// The id of milestone number `n` of project `project_id`.
pub open spec fn milestone_id_of(project_id: u128, n: u8) -> Seq<u8> {
    decimal(project_id as nat).push((FIRST_LETTER + n) as u8)
}

/// What an id names: `Some((milestone number, project id))` when the id is a
/// canonical decimal project id that fits `u128` followed by one letter
/// `a`..=`z`; `None` otherwise.
pub open spec fn parsed_milestone_id(id: Seq<u8>) -> Option<(u8, u128)> {
    let digits = id.drop_last();
    if id.len() >= 2 && FIRST_LETTER <= id.last() < FIRST_LETTER + LETTER_COUNT
        && is_canonical_decimal(digits) && digits_value(digits) <= u128::MAX {
        Some(((id.last() - FIRST_LETTER) as u8, digits_value(digits) as u128))
    } else {
        None
    }
}

proof fn lemma_decimal_canonical(n: nat)
    ensures
        is_canonical_decimal(decimal(n)),
        digits_value(decimal(n)) == n,
        decimal(n).len() >= 1,
        n >= 1 ==> decimal(n)[0] != ZERO_DIGIT,
    decreases n,
{
    let s = decimal(n);
    if n < 10 {
        assert(s.drop_last() =~= Seq::<u8>::empty());
        assert(s[0] == (ZERO_DIGIT + n) as u8);
        assert(digits_value(s) == digits_value(s.drop_last()) * 10 + (s.last() - ZERO_DIGIT) as nat);
    } else {
        lemma_decimal_canonical(n / 10);
        let d = decimal(n / 10);
        assert(s == d.push((ZERO_DIGIT + n % 10) as u8));
        assert(s.drop_last() =~= d);
        assert(s[0] == d[0]);
        assert forall|i: int| 0 <= i < s.len() implies is_digit(#[trigger] s[i]) by {
            if i < d.len() {
                assert(s[i] == d[i]);
            }
        }
        assert(digits_value(s) == digits_value(d) * 10 + (s.last() - ZERO_DIGIT) as nat);
    }
}

proof fn lemma_canonical_decimal_of_value(s: Seq<u8>)
    requires
        is_canonical_decimal(s),
    ensures
        decimal(digits_value(s)) == s,
    decreases s.len(),
{
    let p = s.drop_last();
    if s.len() == 1 {
        assert(p =~= Seq::<u8>::empty());
        assert(decimal(digits_value(s)) =~= s);
    } else {
        assert(is_canonical_decimal(p)) by {
            assert forall|i: int| 0 <= i < p.len() implies is_digit(#[trigger] p[i]) by {
                assert(p[i] == s[i]);
            }
        }
        lemma_canonical_decimal_of_value(p);
        lemma_leading_nonzero_value(p);
        let v = digits_value(s);
        assert(v / 10 == digits_value(p));
        assert(v % 10 == (s.last() - ZERO_DIGIT) as nat);
        assert(decimal(v) =~= s);
    }
}

proof fn lemma_leading_nonzero_value(s: Seq<u8>)
    requires
        is_canonical_decimal(s),
    ensures
        s[0] != ZERO_DIGIT ==> digits_value(s) >= 1,
    decreases s.len(),
{
    if s.len() > 1 {
        let p = s.drop_last();
        assert(is_canonical_decimal(p)) by {
            assert forall|i: int| 0 <= i < p.len() implies is_digit(#[trigger] p[i]) by {
                assert(p[i] == s[i]);
            }
        }
        lemma_leading_nonzero_value(p);
    }
}

proof fn lemma_digits_value_prefix_monotone(s: Seq<u8>, i: int, j: int)
    requires
        0 <= i <= j <= s.len(),
        forall|k: int| 0 <= k < s.len() ==> is_digit(#[trigger] s[k]),
    ensures
        digits_value(s.take(i)) <= digits_value(s.take(j)),
    decreases j - i,
{
    if i < j {
        lemma_digits_value_prefix_monotone(s, i, j - 1);
        assert(s.take(j).drop_last() =~= s.take(j - 1));
    }
}

/// The id of milestone `n` of a project names that milestone of that project.
pub proof fn lemma_parse_milestone_id_of(project_id: u128, n: u8)
    requires
        n < LETTER_COUNT,
    ensures
        parsed_milestone_id(milestone_id_of(project_id, n)) == Some((n, project_id)),
{
    lemma_decimal_canonical(project_id as nat);
    assert(milestone_id_of(project_id, n).drop_last() =~= decimal(project_id as nat));
}

/// An id that names a milestone is the id of that milestone, so no two
/// distinct ids name the same milestone.
pub proof fn lemma_milestone_id_of_parsed(id: Seq<u8>)
    requires
        parsed_milestone_id(id) is Some,
    ensures
        milestone_id_of(parsed_milestone_id(id).unwrap().1, parsed_milestone_id(id).unwrap().0) == id,
{
    let digits = id.drop_last();
    lemma_canonical_decimal_of_value(digits);
    assert(milestone_id_of(parsed_milestone_id(id).unwrap().1, parsed_milestone_id(id).unwrap().0) =~= id);
}

fn push_decimal(n: u128, out: &mut Vec<u8>)
    ensures
        final(out)@ == old(out)@ + decimal(n as nat),
    decreases n,
{
    if n >= 10 {
        push_decimal(n / 10, out);
    }
    out.push(ZERO_DIGIT + (n % 10) as u8);
    proof {
        if n >= 10 {
            assert(decimal(n as nat) == decimal((n / 10) as nat).push((ZERO_DIGIT + n % 10) as u8));
        }
    }
    assert(final(out)@ =~= old(out)@ + decimal(n as nat));
}

/// The id of milestone number `milestone_number` of project `project_id`.
pub fn create_milestone_id(project_id: u128, milestone_number: u8) -> (id: Vec<u8>)
    requires
        milestone_number < LETTER_COUNT,
    ensures
        id@ == milestone_id_of(project_id, milestone_number),
{
    let mut id: Vec<u8> = Vec::new();
    push_decimal(project_id, &mut id);
    id.push(FIRST_LETTER + milestone_number);
    assert(id@ =~= milestone_id_of(project_id, milestone_number));
    id
}

/// Splits an id into its milestone number and project id.
pub fn get_milestone_and_project_id(milestone_id: &Vec<u8>) -> (parts: Option<(u8, u128)>)
    ensures
        parts == parsed_milestone_id(milestone_id@),
{
    let len = milestone_id.len();
    if len < 2 {
        return None;
    }
    let letter = milestone_id[len - 1];
    if letter < FIRST_LETTER || letter >= FIRST_LETTER + LETTER_COUNT {
        return None;
    }
    let ghost s = milestone_id@;
    let ghost digits = s.drop_last();
    let ndigits = len - 1;
    if ndigits > 1 && milestone_id[0] == ZERO_DIGIT {
        assert(!is_canonical_decimal(digits));
        return None;
    }
    let mut value: u128 = 0;
    let mut i: usize = 0;
    while i < ndigits
        invariant
            s == milestone_id@,
            digits == s.drop_last(),
            ndigits == digits.len(),
            ndigits + 1 == s.len(),
            i <= ndigits,
            forall|k: int| 0 <= k < i ==> is_digit(#[trigger] digits[k]),
            value == digits_value(digits.take(i as int)),
        decreases ndigits - i,
    {
        let b = milestone_id[i];
        assert(b == digits[i as int]);
        if b < ZERO_DIGIT || b >= ZERO_DIGIT + 10 {
            assert(!is_canonical_decimal(digits));
            return None;
        }
        assert(digits.take(i + 1).drop_last() =~= digits.take(i as int));
        match value.checked_mul(10) {
            None => {
                proof { lemma_overflow_rest(digits, i as int); }
                return None;
            },
            Some(v10) => match v10.checked_add((b - ZERO_DIGIT) as u128) {
                None => {
                    proof { lemma_overflow_rest(digits, i as int); }
                    return None;
                },
                Some(v) => {
                    value = v;
                },
            },
        }
        i = i + 1;
    }
    assert(digits.take(ndigits as int) =~= digits);
    Some((letter - FIRST_LETTER, value))
}

proof fn lemma_overflow_rest(digits: Seq<u8>, i: int)
    requires
        0 <= i < digits.len(),
        forall|k: int| 0 <= k <= i ==> is_digit(#[trigger] digits[k]),
        digits_value(digits.take(i + 1)) > u128::MAX,
    ensures
        !(is_canonical_decimal(digits) && digits_value(digits) <= u128::MAX),
{
    if is_canonical_decimal(digits) {
        lemma_digits_value_prefix_monotone(digits, i + 1, digits.len() as int);
        assert(digits.take(digits.len() as int) =~= digits);
    }
}

} // verus!
