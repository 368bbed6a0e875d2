//! Formatting the search result for display, one output line at a time.

use vstd::prelude::*;
use vstd::string::{StrSliceExecFns, StringExecFns};

verus! {

/// The character for the decimal digit `d`.
pub open spec fn digit_char(d: nat) -> char {
    if d == 0 {
        '0'
    } else if d == 1 {
        '1'
    } else if d == 2 {
        '2'
    } else if d == 3 {
        '3'
    } else if d == 4 {
        '4'
    } else if d == 5 {
        '5'
    } else if d == 6 {
        '6'
    } else if d == 7 {
        '7'
    } else if d == 8 {
        '8'
    } else {
        '9'
    }
}

/// The decimal digits of `n`, most significant first.
pub open spec fn decimal_view(n: nat) -> Seq<char>
    decreases n,
{
    if n < 10 {
        seq![digit_char(n)]
    } else {
        decimal_view(n / 10).push(digit_char(n % 10))
    }
}

/// The decimal digit a character stands for.
pub open spec fn digit_value(c: char) -> nat {
    if c == '0' {
        0
    } else if c == '1' {
        1
    } else if c == '2' {
        2
    } else if c == '3' {
        3
    } else if c == '4' {
        4
    } else if c == '5' {
        5
    } else if c == '6' {
        6
    } else if c == '7' {
        7
    } else if c == '8' {
        8
    } else {
        9
    }
}

/// The number a digit string stands for, most significant digit first.
pub open spec fn decimal_value(s: Seq<char>) -> nat
    decreases s.len(),
{
    if s.len() == 0 {
        0
    } else {
        decimal_value(s.drop_last()) * 10 + digit_value(s.last())
    }
}

/// The decimal rendering is faithful: its digits stand for the number
/// that was rendered.
pub proof fn lemma_decimal_round_trip(n: nat)
    ensures
        decimal_value(decimal_view(n)) == n,
    decreases n,
{
    if n < 10 {
        assert(decimal_view(n).drop_last() =~= Seq::<char>::empty());
        assert(decimal_value(Seq::<char>::empty()) == 0);
        assert(decimal_view(n).last() == digit_char(n));
        assert(digit_value(digit_char(n)) == n);
    } else {
        lemma_decimal_round_trip(n / 10);
        assert(decimal_view(n).drop_last() =~= decimal_view(n / 10));
        assert(decimal_view(n).last() == digit_char(n % 10));
        assert(digit_value(digit_char(n % 10)) == n % 10);
        assert(decimal_value(decimal_view(n)) == (n / 10) * 10 + n % 10);
        assert((n / 10) * 10 + n % 10 == n) by (nonlinear_arith);
    }
}

/// The one-character string for the decimal digit `d`.
fn digit_str(d: usize) -> (r: &'static str)
    requires
        d < 10,
    ensures
        r@ == seq![digit_char(d as nat)],
{
    let digits = "0123456789";
    proof {
        reveal_strlit("0123456789");
    }
    let r = digits.substring_char(d, d + 1);
    proof {
        assert(r@ =~= seq![digit_char(d as nat)]);
    }
    r
}

/// `n` written in decimal.
pub fn decimal_string(n: usize) -> (r: String)
    ensures
        r@ == decimal_view(n as nat),
    decreases n,
{
    let d = n % 10;
    let ds = digit_str(d);
    if n < 10 {
        String::from_str(ds)
    } else {
        proof {
            assert(n / 10 < n) by (nonlinear_arith)
                requires
                    n >= 10,
            ;
        }
        let mut s = decimal_string(n / 10);
        s.append(ds);
        proof {
            assert(s@ =~= decimal_view((n / 10) as nat).push(digit_char((n % 10) as nat)));
        }
        s
    }
}

/// The output lines of a report over `results`: a notice when nothing was
/// found; otherwise a header, each matching line, and the count of matches.
pub open spec fn report_view(results: Seq<Seq<char>>) -> Seq<Seq<char>> {
    if results.len() == 0 {
        seq!["未找到"@]
    } else {
        seq!["搜索结果 : "@] + results + seq![
            "共计出现 : "@ + decimal_view(results.len() as nat) + " 次"@,
        ]
    }
}

/// The report for `results`, one output line per element, in print order.
pub fn render_report(results: &Vec<&str>) -> (r: Vec<String>)
    ensures
        r.deep_view() == report_view(results.deep_view()),
{
    let mut r: Vec<String> = Vec::new();
    if results.len() == 0 {
        r.push(String::from_str("未找到"));
        proof {
            assert(r.deep_view() =~= report_view(results.deep_view()));
        }
        return r;
    }
    r.push(String::from_str("搜索结果 : "));
    proof {
        assert(r.deep_view() =~= seq!["搜索结果 : "@] + results.deep_view().take(0));
    }
    let mut i: usize = 0;
    while i < results.len()
        invariant
            i <= results@.len(),
            results@.len() > 0,
            r.deep_view() == seq!["搜索结果 : "@] + results.deep_view().take(i as int),
        decreases results@.len() - i,
    {
        let ghost r_before = r.deep_view();
        r.push(String::from_str(results[i]));
        proof {
            assert(r.deep_view() =~= r_before.push(results.deep_view()[i as int]));
            assert(r.deep_view() =~= seq!["搜索结果 : "@] + results.deep_view().take(i + 1));
        }
        i = i + 1;
    }
    let mut count_line = String::from_str("共计出现 : ");
    let num = decimal_string(results.len());
    count_line.append(num.as_str());
    count_line.append(" 次");
    let ghost r_before = r.deep_view();
    r.push(count_line);
    proof {
        assert(results.deep_view().take(results@.len() as int) =~= results.deep_view());
        assert(r.deep_view() =~= r_before.push(count_line@));
        assert(r.deep_view() =~= report_view(results.deep_view()));
    }
    r
}

} // verus!
