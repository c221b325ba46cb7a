//! Text helpers: comparison, prefixes and decimal digits.

use vstd::prelude::*;
use vstd::string::*;

use crate::seqs;

verus! {

/// Whether two texts are the same.
pub(crate) fn same_text(a: &str, b: &str) -> (r: bool)
    ensures
        r == (a@ == b@),
{
    let mut rest: Vec<char> = Vec::new();
    for c in it: a.chars()
        invariant
            it.seq() == a@,
            rest@ =~= a@.take(it.index()),
    {
        rest.push(c);
    }
    assert(a@.take(a@.len() as int) == a@);
    let n: usize = rest.len();
    let mut i: usize = 0;
    for c in it: b.chars()
        invariant
            it.seq() == b@,
            rest@ == a@,
            n == a@.len(),
            i == it.index(),
            i <= n,
            a@.take(i as int) == b@.take(i as int),
    {
        if i == n || rest[i] != c {
            assert(a@ != b@) by {
                if a@ == b@ {
                    assert(b@[it.index()] == a@[i as int]);
                }
            }
            return false;
        }
        assert(a@.take(i + 1) =~= a@.take(i as int).push(c));
        assert(b@.take(i + 1) =~= b@.take(i as int).push(c));
        i += 1;
    }
    assert(b@.take(b@.len() as int) == b@);
    assert(i == n ==> a@.take(n as int) == a@);
    i == n
}

/// `String::push`. Trusted: appends one character.
pub assume_specification[ String::push ](target: &mut String, c: char)
    ensures
        final(target)@ == old(target)@.push(c),
;

/// Whether `text` begins with `prefix`.
pub fn starts_with(text: &str, prefix: &str) -> (r: bool)
    ensures
        r == prefix@.is_prefix_of(text@),
{
    let n: usize = prefix.unicode_len();
    if n <= text.unicode_len() {
        let head = text.substring_char(0, n);
        let r = same_text(head, prefix);
        assert(head@ == text@.take(n as int));
        r
    } else {
        false
    }
}

/// The character of a decimal digit.
pub open spec fn digit_char(d: nat) -> char {
    (48 + d) as char
}

/// The decimal digits of a number, without leading zeros. Zero has none.
pub open spec fn digits(n: nat) -> Seq<char>
    decreases n,
{
    if n == 0 {
        Seq::empty()
    } else {
        digits(n / 10).push(digit_char(n % 10))
    }
}

/// A number as it is written: its digits, or a single zero.
pub open spec fn decimal(n: nat) -> Seq<char> {
    if n == 0 {
        seq!['0']
    } else {
        digits(n)
    }
}

fn digit_text(d: u8) -> (r: char)
    requires
        d < 10,
    ensures
        r == digit_char(d as nat),
{
    let code: u8 = 48 + d;
    code as char
}

/// Writes a number in decimal.
pub fn decimal_text(n: u128) -> (r: String)
    ensures
        r@ == decimal(n as nat),
{
    let mut r = String::new();
    if n == 0 {
        r.push('0');
        return r;
    }
    // The digits from the last to the first.
    let mut reversed: Vec<char> = Vec::new();
    let mut rest: u128 = n;
    while rest > 0
        invariant
            digits(n as nat) == digits(rest as nat) + reversed@.reverse(),
        decreases rest,
    {
        let d: u8 = (rest % 10) as u8;
        let ghost before = reversed@;
        reversed.push(digit_text(d));
        proof {
            assert(digits(rest as nat) == digits((rest / 10) as nat).push(
                digit_char((rest % 10) as nat),
            ));
            assert(digits((rest / 10) as nat).push(digit_char(d as nat)) + before.reverse()
                =~= digits((rest / 10) as nat) + before.push(digit_char(d as nat)).reverse());
        }
        rest = rest / 10;
    }
    assert(digits(0) =~= Seq::<char>::empty());
    assert(digits(n as nat) =~= reversed@.reverse());
    let k: usize = reversed.len();
    for i in 0..k
        invariant
            k == reversed@.len(),
            r@ =~= reversed@.reverse().take(i as int),
    {
        r.push(reversed[k - 1 - i]);
    }
    assert(reversed@.reverse().take(k as int) =~= reversed@.reverse());
    r
}

/// Three texts in a row.
pub fn joined(first: &str, second: &str, third: &str) -> (r: String)
    ensures
        r@ == first@ + second@ + third@,
{
    let mut r = first.to_string();
    r.append(second);
    r.append(third);
    r
}

/// Takes every occurrence of `text` out of the list.
pub fn remove_text(list: &mut Vec<String>, text: &str)
    ensures
        seqs::texts(final(list)@) == seqs::without(seqs::texts(old(list)@), text@),
{
    let ghost before = list@;
    let ghost keep = |t: String| t@ != text@;
    proof {
        seqs::lemma_filter_none(before, keep);
    }
    let mut all: Vec<String> = Vec::new();
    std::mem::swap(&mut all, list);
    for item in it: all
        invariant
            it.seq() == before,
            keep == (|t: String| t@ != text@),
            list@ == before.take(it.index()).filter(keep),
    {
        proof {
            seqs::lemma_filter_step(before, keep, it.index());
        }
        if !same_text(item.as_str(), text) {
            list.push(item);
        }
    }
    proof {
        assert(before.take(before.len() as int) == before);
        seqs::lemma_map_filter(before, |t: String| t@, keep, seqs::other_than(text@));
    }
}

/// The number that decimal digits stand for.
pub open spec fn numeral(s: Seq<char>) -> int
    decreases s.len(),
{
    if s.len() == 0 {
        0
    } else {
        10 * numeral(s.drop_last()) + (s.last() as int - '0' as int)
    }
}

/// A number that is written and read back is the same number; it is written in decimal digits, and
/// the first of several is no zero.
pub proof fn law_decimal_reads_back(n: nat)
    ensures
        numeral(decimal(n)) == n,
        decimal(n).len() > 0,
        decimal(n).len() > 1 ==> decimal(n)[0] != '0',
        forall|i: int| 0 <= i < decimal(n).len() ==> '0' <= #[trigger] decimal(n)[i] <= '9',
        n > 0 ==> digits(n) == decimal(n),
        digits(0).len() == 0,
{
    if n == 0 {
        reveal_with_fuel(numeral, 2);
        assert(decimal(0).drop_last() =~= Seq::empty());
    } else {
        lemma_digits_read_back(n);
    }
}

proof fn lemma_digits_read_back(n: nat)
    ensures
        numeral(digits(n)) == n,
        n > 0 ==> digits(n).len() > 0 && digits(n)[0] != '0',
        forall|i: int| 0 <= i < digits(n).len() ==> '0' <= #[trigger] digits(n)[i] <= '9',
    decreases n,
{
    if n > 0 {
        let front = digits(n / 10);
        let last = digit_char(n % 10);
        lemma_digits_read_back(n / 10);
        assert(digits(n) == front.push(last));
        assert(front.push(last).drop_last() =~= front);
        assert(last as int == 48 + n % 10);
        assert forall|i: int| 0 <= i < digits(n).len() implies '0' <= #[trigger] digits(n)[i]
            <= '9' by {
            if i < front.len() {
                assert(digits(n)[i] == front[i]);
            }
        }
        if n / 10 > 0 {
            assert(digits(n)[0] == front[0]);
        } else {
            assert(front.len() == 0);
        }
    }
}

} // verus!
