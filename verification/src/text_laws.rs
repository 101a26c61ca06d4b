//! What a number written out in digits is.

use vstd::prelude::*;

use crate::text;

verus! {

/// The number that decimal digits spell, highest first.
pub open spec fn spelled(digits: Seq<char>) -> int
    decreases digits.len(),
{
    if digits.len() == 0 {
        0
    } else {
        10 * spelled(digits.drop_last()) + (digits.last() as int - 48)
    }
}

/// Every character is a decimal digit.
pub open spec fn all_digits(digits: Seq<char>) -> bool {
    forall|i: int| 0 <= i < digits.len() ==> 48 <= (#[trigger] digits[i]) as int <= 57
}

proof fn lemma_digit(d: int)
    requires
        0 <= d < 10,
    ensures
        text::digit(d).len() == 1,
        text::digit(d)[0] as int == 48 + d,
{
    reveal_strlit("0");
    reveal_strlit("1");
    reveal_strlit("2");
    reveal_strlit("3");
    reveal_strlit("4");
    reveal_strlit("5");
    reveal_strlit("6");
    reveal_strlit("7");
    reveal_strlit("8");
    reveal_strlit("9");
}

/// A number written out consists of digits that spell it, at least one of them, and does not begin
/// with a zero unless it is zero itself.
pub proof fn law_written_number_reads_back(n: nat)
    ensures
        text::decimal(n).len() > 0,
        all_digits(text::decimal(n)),
        spelled(text::decimal(n)) == n,
        n > 0 ==> text::decimal(n)[0] as int != 48,
        n == 0 ==> text::decimal(n).len() == 1,
    decreases n,
{
    if n < 10 {
        lemma_digit(n as int);
        reveal_with_fuel(spelled, 2);
    } else {
        law_written_number_reads_back(n / 10);
        lemma_digit((n % 10) as int);
        let before = text::decimal(n / 10);
        let whole = text::decimal(n);
        assert(whole.drop_last() =~= before);
        assert forall|i: int| 0 <= i < whole.len() implies 48 <= (#[trigger] whole[i]) as int
            <= 57 by {
            if i < before.len() {
                assert(whole[i] == before[i]);
            }
        }
        assert(whole[0] == before[0]);
    }
}

/// A negative number is a minus sign and then the number without its sign; any other is as it is.
pub proof fn law_sign_comes_first(n: int)
    ensures
        n >= 0 ==> text::signed_decimal(n) == text::decimal(n as nat),
        n < 0 ==> text::signed_decimal(n) == seq!['-'] + text::decimal((-n) as nat),
{
    reveal_strlit("-");
    assert("-"@ =~= seq!['-']);
}

} // verus!
