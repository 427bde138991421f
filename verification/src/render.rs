//! Textual rendering of output items: a count, right-aligned in a fixed
//! minimum width of four, a single space, then the line unchanged.

use vstd::prelude::*;
use vstd::string::StringExecFns;

verus! {

/// The decimal digit character for a value below ten.
pub open spec fn digit_char(d: nat) -> char {
    if d == 0 {
        '0'
    } else if d == 1 {
        '1'
    } else if d == 2 {
        '2'
    } else if d == 3 {
        '3'
    } else if d == 4 {
        '4'
    } else if d == 5 {
        '5'
    } else if d == 6 {
        '6'
    } else if d == 7 {
        '7'
    } else if d == 8 {
        '8'
    } else {
        '9'
    }
}

/// The decimal digits of `n`, most significant first, no leading zeros.
pub open spec fn dec_digits(n: nat) -> Seq<char>
    decreases n,
{
    if n < 10 {
        seq![digit_char(n)]
    } else {
        dec_digits(n / 10).push(digit_char(n % 10))
    }
}

/// `k` space characters.
pub open spec fn spec_spaces(k: nat) -> Seq<char> {
    Seq::new(k, |i: int| ' ')
}

/// The decimal digits of `n`, padded on the left with spaces to a minimum
/// width of four.
pub open spec fn spec_padded(n: nat) -> Seq<char> {
    if dec_digits(n).len() >= 4 {
        dec_digits(n)
    } else {
        spec_spaces((4 - dec_digits(n).len()) as nat) + dec_digits(n)
    }
}

/// A rendered counted line: the padded count, one space, then the line.
pub open spec fn spec_counted(c: nat, l: Seq<char>) -> Seq<char> {
    spec_padded(c) + seq![' '] + l
}

/// How many decimal digits `n` has, for the widths the padding cares about.
proof fn lemma_dec_len(n: nat)
    ensures
        n < 10 ==> dec_digits(n).len() == 1,
        10 <= n < 100 ==> dec_digits(n).len() == 2,
        100 <= n < 1000 ==> dec_digits(n).len() == 3,
        1000 <= n ==> dec_digits(n).len() >= 4,
    decreases n,
{
    if n >= 10 {
        lemma_dec_len(n / 10);
        assert(n < 100 ==> n / 10 < 10) by (nonlinear_arith);
        assert(n >= 100 ==> n / 10 >= 10) by (nonlinear_arith);
        assert(n < 1000 ==> n / 10 < 100) by (nonlinear_arith);
        assert(n >= 1000 ==> n / 10 >= 100) by (nonlinear_arith);
    }
}

/// The one-character string for a digit below ten.
fn digit_str(d: usize) -> (r: &'static str)
    requires
        d < 10,
    ensures
        r@ == seq![digit_char(d as nat)],
{
    if d == 0 {
        proof {
            reveal_strlit("0");
            assert("0"@ =~= seq!['0']);
        }
        "0"
    } else if d == 1 {
        proof {
            reveal_strlit("1");
            assert("1"@ =~= seq!['1']);
        }
        "1"
    } else if d == 2 {
        proof {
            reveal_strlit("2");
            assert("2"@ =~= seq!['2']);
        }
        "2"
    } else if d == 3 {
        proof {
            reveal_strlit("3");
            assert("3"@ =~= seq!['3']);
        }
        "3"
    } else if d == 4 {
        proof {
            reveal_strlit("4");
            assert("4"@ =~= seq!['4']);
        }
        "4"
    } else if d == 5 {
        proof {
            reveal_strlit("5");
            assert("5"@ =~= seq!['5']);
        }
        "5"
    } else if d == 6 {
        proof {
            reveal_strlit("6");
            assert("6"@ =~= seq!['6']);
        }
        "6"
    } else if d == 7 {
        proof {
            reveal_strlit("7");
            assert("7"@ =~= seq!['7']);
        }
        "7"
    } else if d == 8 {
        proof {
            reveal_strlit("8");
            assert("8"@ =~= seq!['8']);
        }
        "8"
    } else {
        proof {
            reveal_strlit("9");
            assert("9"@ =~= seq!['9']);
        }
        "9"
    }
}

/// The decimal rendering of `n`, digit by digit.
fn dec_string(n: usize) -> (r: String)
    ensures
        r@ == dec_digits(n as nat),
    decreases n,
{
    if n < 10 {
        digit_str(n).to_owned()
    } else {
        proof {
            assert(n / 10 < n) by (nonlinear_arith)
                requires
                    n >= 10,
            ;
        }
        let mut s = dec_string(n / 10);
        s.append(digit_str(n % 10));
        proof {
            assert(s@ =~= dec_digits(n as nat));
        }
        s
    }
}

/// Render one counted output line: the count right-aligned in a minimum
/// width of four, a single space, and the line exactly as read.
pub fn counted_line(count: usize, line: &String) -> (r: String)
    ensures
        r@ == spec_counted(count as nat, line@),
{
    proof {
        lemma_dec_len(count as nat);
        reveal_strlit("");
        reveal_strlit(" ");
        reveal_strlit("  ");
        reveal_strlit("   ");
        assert(""@ =~= spec_spaces(0));
        assert(" "@ =~= spec_spaces(1));
        assert("  "@ =~= spec_spaces(2));
        assert("   "@ =~= spec_spaces(3));
    }
    let mut s: String = if count >= 1000 {
        "".to_owned()
    } else if count >= 100 {
        " ".to_owned()
    } else if count >= 10 {
        "  ".to_owned()
    } else {
        "   ".to_owned()
    };
    let d = dec_string(count);
    s.append(d.as_str());
    s.append(" ");
    s.append(line.as_str());
    proof {
        assert(" "@ =~= seq![' ']);
        assert(s@ =~= spec_counted(count as nat, line@));
    }
    s
}

} // verus!
