//! Default titles of new tabs: "Terminal " followed by the tab's number,
//! counting from one, in decimal.
use vstd::prelude::*;

verus! {

/// The decimal digit of value `d` (for `d < 10`).
pub open spec fn digit_char(d: nat) -> char {
    if d == 0 {
        '0'
    } else if d == 1 {
        '1'
    } else if d == 2 {
        '2'
    } else if d == 3 {
        '3'
    } else if d == 4 {
        '4'
    } else if d == 5 {
        '5'
    } else if d == 6 {
        '6'
    } else if d == 7 {
        '7'
    } else if d == 8 {
        '8'
    } else {
        '9'
    }
}

/// `n` written in decimal, without leading zeros.
pub open spec fn decimal(n: nat) -> Seq<char>
    decreases n,
{
    if n < 10 {
        seq![digit_char(n)]
    } else {
        decimal(n / 10).push(digit_char(n % 10))
    }
}

/// The title of the tab that opens at position `index` of the tab list.
pub open spec fn tab_title_text(index: nat) -> Seq<char> {
    seq!['T', 'e', 'r', 'm', 'i', 'n', 'a', 'l', ' '] + decimal(index + 1)
}


/// The value of decimal digit `c`.
pub open spec fn digit_value(c: char) -> nat {
    if c == '1' {
        1
    } else if c == '2' {
        2
    } else if c == '3' {
        3
    } else if c == '4' {
        4
    } else if c == '5' {
        5
    } else if c == '6' {
        6
    } else if c == '7' {
        7
    } else if c == '8' {
        8
    } else if c == '9' {
        9
    } else {
        0
    }
}

/// The number that a string of decimal digits stands for.
pub open spec fn digits_value(s: Seq<char>) -> nat
    decreases s.len(),
{
    if s.len() == 0 {
        0
    } else {
        digits_value(s.drop_last()) * 10 + digit_value(s.last())
    }
}

/// Whether `c` is one of the ten decimal digits.
pub open spec fn is_digit(c: char) -> bool {
    '0' <= c <= '9'
}

/// Each digit reads back as its value.
proof fn lemma_digit(d: nat)
    requires
        d < 10,
    ensures
        digit_value(digit_char(d)) == d,
        is_digit(digit_char(d)),
        d > 0 ==> digit_char(d) != '0',
{
}

/// The decimal rendering of `n` is a non-empty string of digits, without a
/// leading zero unless `n` is zero, that reads back as `n`.
pub proof fn lemma_decimal_reads_back(n: nat)
    ensures
        decimal(n).len() >= 1,
        forall|i: int| 0 <= i < decimal(n).len() ==> is_digit(#[trigger] decimal(n)[i]),
        n > 0 ==> decimal(n)[0] != '0',
        digits_value(decimal(n)) == n,
    decreases n,
{
    if n < 10 {
        let s = decimal(n);
        lemma_digit(n);
        assert(s.drop_last() =~= Seq::<char>::empty());
        assert(digits_value(s.drop_last()) == 0);
        assert(s.last() == digit_char(n));
    } else {
        let q = n / 10;
        let d = n % 10;
        lemma_decimal_reads_back(q);
        let s = decimal(n);
        assert(s.drop_last() =~= decimal(q));
        assert(q * 10 + d == n) by (nonlinear_arith)
            requires
                q == n / 10,
                d == n % 10,
        ;
        assert(q >= 1) by (nonlinear_arith)
            requires
                q == n / 10,
                n >= 10,
        ;
        assert(d < 10) by (nonlinear_arith)
            requires
                d == n % 10,
        ;
        lemma_digit(d);
        assert(s.last() == digit_char(d));
        assert(digits_value(s) == digits_value(decimal(q)) * 10 + digit_value(digit_char(d)));
        assert forall|i: int| 0 <= i < s.len() implies is_digit(#[trigger] s[i]) by {
            if i < s.len() - 1 {
                assert(s[i] == decimal(q)[i]);
            }
        }
    }
}

/// Different numbers have different decimal renderings, so tabs opened at
/// different positions get different titles.
pub proof fn lemma_titles_differ(i: nat, j: nat)
    requires
        i != j,
    ensures
        tab_title_text(i) != tab_title_text(j),
{
    lemma_decimal_reads_back(i + 1);
    lemma_decimal_reads_back(j + 1);
    let p = seq!['T', 'e', 'r', 'm', 'i', 'n', 'a', 'l', ' '];
    if tab_title_text(i) == tab_title_text(j) {
        assert(tab_title_text(i).subrange(9, tab_title_text(i).len() as int) =~= decimal(i + 1));
        assert(tab_title_text(j).subrange(9, tab_title_text(j).len() as int) =~= decimal(j + 1));
    }
}

/// The one-character string of digit `d`.
fn digit_str(d: usize) -> (s: &'static str)
    requires
        d < 10,
    ensures
        s@ == seq![digit_char(d as nat)],
{
    if d == 0 {
        proof { reveal_strlit("0"); }
        "0"
    } else if d == 1 {
        proof { reveal_strlit("1"); }
        "1"
    } else if d == 2 {
        proof { reveal_strlit("2"); }
        "2"
    } else if d == 3 {
        proof { reveal_strlit("3"); }
        "3"
    } else if d == 4 {
        proof { reveal_strlit("4"); }
        "4"
    } else if d == 5 {
        proof { reveal_strlit("5"); }
        "5"
    } else if d == 6 {
        proof { reveal_strlit("6"); }
        "6"
    } else if d == 7 {
        proof { reveal_strlit("7"); }
        "7"
    } else if d == 8 {
        proof { reveal_strlit("8"); }
        "8"
    } else {
        proof { reveal_strlit("9"); }
        "9"
    }
}

/// `n` written in decimal.
pub fn decimal_string(n: usize) -> (s: String)
    ensures
        s@ == decimal(n as nat),
    decreases n,
{
    if n < 10 {
        digit_str(n).to_owned()
    } else {
        let mut s = decimal_string(n / 10);
        s.append(digit_str(n % 10));
        s
    }
}

/// The title of the tab that opens at position `index`: "Terminal " and
/// the number `index + 1`.
pub fn tab_title(index: usize) -> (s: String)
    requires
        index < usize::MAX,
    ensures
        s@ == tab_title_text(index as nat),
{
    proof { reveal_strlit("Terminal "); }
    let mut s = "Terminal ".to_owned();
    let number = decimal_string(index + 1);
    s.append(number.as_str());
    s
}

} // verus!
