//! Numbers and small pieces of text.
use vstd::prelude::*;

verus! {

/// The numeral for `n` in the base given by the number of digits in `alphabet`.
pub open spec fn numeral(n: nat, alphabet: Seq<char>) -> Seq<char>
    decreases n,
{
    if alphabet.len() < 2 || n < alphabet.len() {
        seq![alphabet[n as int]]
    } else {
        proof {
            lemma_quotient_smaller(n, alphabet.len());
        }
        numeral(n / alphabet.len(), alphabet).push(alphabet[(n % alphabet.len()) as int])
    }
}

/// Dividing by a base makes a number smaller.
pub proof fn lemma_quotient_smaller(n: nat, base: nat)
    requires
        2 <= base <= n,
    ensures
        n / base < n,
{
    assert(n / base < n) by (nonlinear_arith)
        requires
            2 <= base <= n,
    ;
}

/// The decimal numeral for `n`, with a leading minus where it is negative.
pub open spec fn decimal_text(n: int) -> Seq<char> {
    if n < 0 {
        "-"@ + numeral((-n) as nat, "0123456789"@)
    } else {
        numeral(n as nat, "0123456789"@)
    }
}

/// The hexadecimal numeral for `n` in lower case.
pub open spec fn hex_text(n: nat) -> Seq<char> {
    numeral(n, "0123456789abcdef"@)
}

/// The hexadecimal numeral for `n` in upper case.
pub open spec fn upper_hex_text(n: nat) -> Seq<char> {
    numeral(n, "0123456789ABCDEF"@)
}

/// Appends a single character to a string, as std's `String::push` documents.
pub assume_specification[ String::push ](s: &mut String, c: char)
    ensures
        final(s)@ == old(s)@.push(c),
;

fn push_numeral(s: &mut String, n: u128, alphabet: &str, base: u128)
    requires
        2 <= base == alphabet@.len() <= 16,
    ensures
        final(s)@ == old(s)@ + numeral(n as nat, alphabet@),
    decreases n,
{
    let ghost before = s@;
    if n >= base {
        proof {
            lemma_quotient_smaller(n as nat, base as nat);
        }
        push_numeral(s, n / base, alphabet, base);
    }
    assert(n < base ==> n % base == n) by (nonlinear_arith)
        requires
            base >= 2,
    ;
    assert(n % base < base) by (nonlinear_arith)
        requires
            base >= 2,
    ;
    let digit: usize = (n % base) as usize;
    s.push(alphabet.get_char(digit));
    assert(s@ =~= before + numeral(n as nat, alphabet@));
}

/// Writes `n` in decimal.
pub fn decimal(n: i128) -> (r: String)
    requires
        n > i128::MIN,
    ensures
        r@ == decimal_text(n as int),
{
    proof {
        reveal_strlit("0123456789");
    }
    if n < 0 {
        let mut s = "-".to_owned();
        push_numeral(&mut s, (-n) as u128, "0123456789", 10);
        s
    } else {
        let mut s = String::new();
        push_numeral(&mut s, n as u128, "0123456789", 10);
        assert(s@ =~= decimal_text(n as int));
        s
    }
}

/// Writes `n` in hexadecimal with lower case digits.
pub fn hex(n: u64) -> (r: String)
    ensures
        r@ == hex_text(n as nat),
{
    proof {
        reveal_strlit("0123456789abcdef");
    }
    let mut s = String::new();
    push_numeral(&mut s, n as u128, "0123456789abcdef", 16);
    assert(s@ =~= hex_text(n as nat));
    s
}

/// Writes `n` in hexadecimal with upper case digits.
pub fn upper_hex(n: u64) -> (r: String)
    ensures
        r@ == upper_hex_text(n as nat),
{
    proof {
        reveal_strlit("0123456789ABCDEF");
    }
    let mut s = String::new();
    push_numeral(&mut s, n as u128, "0123456789ABCDEF", 16);
    assert(s@ =~= upper_hex_text(n as nat));
    s
}

/// The number that a numeral stands for.
pub open spec fn numeral_value(s: Seq<char>, alphabet: Seq<char>) -> nat
    decreases s.len(),
{
    if s.len() == 0 {
        0
    } else {
        numeral_value(s.drop_last(), alphabet) * alphabet.len() + alphabet.index_of(s.last()) as nat
    }
}

/// Reading a numeral back gives the number that was written.
pub proof fn law_numeral_reads_back(n: nat, alphabet: Seq<char>)
    requires
        alphabet.len() >= 2,
        alphabet.no_duplicates(),
    ensures
        numeral_value(numeral(n, alphabet), alphabet) == n,
    decreases n,
{
    let base = alphabet.len();
    let text = numeral(n, alphabet);
    let digit = if n < base { n } else { n % base };
    assert(0 <= digit < base) by (nonlinear_arith)
        requires
            base >= 2,
            digit == (if n < base { n } else { n % base }),
    ;
    assert(text.last() == alphabet[digit as int]);
    assert(alphabet.contains(alphabet[digit as int]));
    assert(alphabet.index_of(text.last()) == digit);
    if n < base {
        assert(text.drop_last() =~= Seq::<char>::empty());
        assert(numeral_value(text.drop_last(), alphabet) == 0);
        assert(numeral_value(text, alphabet) == 0 * base + digit);
        assert(0 * base == 0) by (nonlinear_arith);
    } else {
        lemma_quotient_smaller(n, base);
        law_numeral_reads_back(n / base, alphabet);
        assert(text.drop_last() =~= numeral(n / base, alphabet));
        assert((n / base) * base + n % base == n) by (nonlinear_arith)
            requires
                base >= 2,
        ;
    }
}

} // verus!
