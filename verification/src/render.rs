//! Verified text rendering: decimal digits, percentages with two decimal
//! places, the per-year report lines, and the final comparison sentence.

use vstd::prelude::*;
use vstd::string::StringExecFns;

verus! {

/// The decimal digit character for `d` in `0 ..= 9`.
pub open spec fn digit_char(d: int) -> char {
    if d == 0 {
        '0'
    } else if d == 1 {
        '1'
    } else if d == 2 {
        '2'
    } else if d == 3 {
        '3'
    } else if d == 4 {
        '4'
    } else if d == 5 {
        '5'
    } else if d == 6 {
        '6'
    } else if d == 7 {
        '7'
    } else if d == 8 {
        '8'
    } else {
        '9'
    }
}

/// The decimal digits of `n`, most significant first, with no leading zeros
/// (a single `'0'` for zero).
pub open spec fn dec_chars(n: nat) -> Seq<char>
    decreases n,
{
    if n < 10 {
        seq![digit_char(n as int)]
    } else {
        dec_chars(n / 10) + seq![digit_char((n % 10) as int)]
    }
}

/// A rate of `milli` per mille rendered as a percentage with exactly two
/// decimal places: `280` becomes `28.00`, `-3` becomes `-0.30`.
pub open spec fn percent_chars(milli: int) -> Seq<char> {
    let mag = if milli >= 0 {
        milli
    } else {
        -milli
    };
    let h = 10 * mag;
    let sign: Seq<char> = if milli < 0 {
        seq!['-']
    } else {
        Seq::<char>::empty()
    };
    sign + dec_chars((h / 100) as nat) + seq!['.'] + seq![
        digit_char((h / 10) % 10),
        digit_char(h % 10),
    ]
}

/// One line of the data report: `"<year> | <percent>%"`.
pub open spec fn data_line_chars(year: nat, milli: int) -> Seq<char> {
    dec_chars(year) + " | "@ + percent_chars(milli) + "%"@
}

/// The lines that printing the stored data yields: one warning line when
/// nothing is stored, else one line per stored pair, in iteration order.
pub open spec fn report_lines(s: Seq<(usize, i64)>) -> Seq<Seq<char>> {
    if s.len() == 0 {
        seq!["Warning: Found no data to print!"@]
    } else {
        Seq::new(s.len(), |i: int| data_line_chars(s[i].0 as nat, s[i].1 as int))
    }
}

/// The header line above one country's data block.
pub open spec fn header_chars(country: Seq<char>) -> Seq<char> {
    "Data for "@ + country + ":"@
}

/// The line reporting one extremum: `"<label> was <year>: <percent>%"`.
pub open spec fn extremum_chars(label: Seq<char>, year: nat, milli: int) -> Seq<char> {
    label + " was "@ + dec_chars(year) + ": "@ + percent_chars(milli) + "%"@
}

/// The savings-projection sentence, with the two amounts already rendered.
pub open spec fn savings_chars(saved: Seq<char>, kept: Seq<char>) -> Seq<char> {
    "Saving "@ + saved + " for 30 years in 1993 with no interest rate would mean having "@ + kept
        + " in 2023"@
}

/// The verdict sentence: the country that kept less money is named as the one
/// with the higher inflation rate.
pub open spec fn comparison_chars(first: Seq<char>, second: Seq<char>, first_kept_more: bool) -> Seq<
    char,
> {
    let higher = if first_kept_more {
        second
    } else {
        first
    };
    let lower = if first_kept_more {
        first
    } else {
        second
    };
    higher + " had a higher inflation rate than "@ + lower + "!"@
}

/// Law: printing a tracker that holds nothing — as any tracker does right
/// after a clear — yields exactly the single no-data warning line.
pub proof fn lemma_cleared_report()
    ensures
        report_lines(Seq::<(usize, i64)>::empty()) == seq!["Warning: Found no data to print!"@],
{
}

fn append_digit(s: &mut String, d: usize)
    requires
        d < 10,
    ensures
        final(s)@ == old(s)@ + seq![digit_char(d as int)],
{
    let piece: &str = if d == 0 {
        "0"
    } else if d == 1 {
        "1"
    } else if d == 2 {
        "2"
    } else if d == 3 {
        "3"
    } else if d == 4 {
        "4"
    } else if d == 5 {
        "5"
    } else if d == 6 {
        "6"
    } else if d == 7 {
        "7"
    } else if d == 8 {
        "8"
    } else {
        "9"
    };
    proof {
        reveal_strlit("0");
        reveal_strlit("1");
        reveal_strlit("2");
        reveal_strlit("3");
        reveal_strlit("4");
        reveal_strlit("5");
        reveal_strlit("6");
        reveal_strlit("7");
        reveal_strlit("8");
        reveal_strlit("9");
        assert(piece@ =~= seq![digit_char(d as int)]);
    }
    s.append(piece);
}

fn append_dec(s: &mut String, n: u128)
    ensures
        final(s)@ == old(s)@ + dec_chars(n as nat),
    decreases n,
{
    if n >= 10 {
        append_dec(s, n / 10);
        append_digit(s, (n % 10) as usize);
        proof {
            assert((n / 10) as nat == n as nat / 10);
            assert((n % 10) as nat == n as nat % 10);
            assert(old(s)@ + dec_chars(n as nat / 10) + seq![digit_char((n as nat % 10) as int)]
                =~= old(s)@ + dec_chars(n as nat));
        }
    } else {
        append_digit(s, n as usize);
    }
}

/// Renders a per-mille rate as a percentage with two decimal places.
pub fn percent_string(milli: i64) -> (r: String)
    ensures
        r@ == percent_chars(milli as int),
{
    let mut s = String::new();
    let mag: u128 = if milli >= 0 {
        milli as u128
    } else {
        (-(milli as i128)) as u128
    };
    if milli < 0 {
        proof {
            reveal_strlit("-");
        }
        s.append("-");
    }
    let h: u128 = 10 * mag;
    append_dec(&mut s, h / 100);
    proof {
        reveal_strlit(".");
    }
    s.append(".");
    append_digit(&mut s, ((h / 10) % 10) as usize);
    append_digit(&mut s, (h % 10) as usize);
    proof {
        let mag_s = if milli as int >= 0 {
            milli as int
        } else {
            -(milli as int)
        };
        let hs = 10 * mag_s;
        assert(mag as int == mag_s);
        assert(h as int == hs);
        assert((h / 100) as nat == (hs / 100) as nat);
        assert(((h / 10) % 10) as int == (hs / 10) % 10);
        assert((h % 10) as int == hs % 10);
        assert(s@ =~= percent_chars(milli as int));
    }
    s
}

/// Renders one line of the data report: `"<year> | <percent>%"`.
pub fn data_line(year: usize, milli: i64) -> (r: String)
    ensures
        r@ == data_line_chars(year as nat, milli as int),
{
    let mut s = String::new();
    append_dec(&mut s, year as u128);
    s.append(" | ");
    let p = percent_string(milli);
    s.append(p.as_str());
    s.append("%");
    proof {
        assert(s@ =~= data_line_chars(year as nat, milli as int));
    }
    s
}

/// Builds the header line above one country's data block.
pub fn header_line(country: &str) -> (r: String)
    ensures
        r@ == header_chars(country@),
{
    let mut s = String::from_str("Data for ");
    s.append(country);
    s.append(":");
    proof {
        assert(s@ =~= header_chars(country@));
    }
    s
}

/// Builds the line reporting one extremum: `"<label> was <year>: <percent>%"`.
pub fn extremum_line(label: &str, year: usize, milli: i64) -> (r: String)
    ensures
        r@ == extremum_chars(label@, year as nat, milli as int),
{
    let mut s = String::from_str(label);
    s.append(" was ");
    append_dec(&mut s, year as u128);
    s.append(": ");
    let p = percent_string(milli);
    s.append(p.as_str());
    s.append("%");
    proof {
        assert(s@ =~= extremum_chars(label@, year as nat, milli as int));
    }
    s
}

/// Builds the savings-projection sentence from the two rendered amounts.
pub fn savings_line(saved: &str, kept: &str) -> (r: String)
    ensures
        r@ == savings_chars(saved@, kept@),
{
    let mut s = String::from_str("Saving ");
    s.append(saved);
    s.append(" for 30 years in 1993 with no interest rate would mean having ");
    s.append(kept);
    s.append(" in 2023");
    proof {
        assert(s@ =~= savings_chars(saved@, kept@));
    }
    s
}

/// Builds the verdict sentence from the two country names and the outcome of
/// comparing their kept amounts: the country that kept less is reported as
/// the one with the higher inflation rate.
pub fn comparison_line(first: &str, second: &str, first_kept_more: bool) -> (r: String)
    ensures
        r@ == comparison_chars(first@, second@, first_kept_more),
{
    let mut s = if first_kept_more {
        String::from_str(second)
    } else {
        String::from_str(first)
    };
    s.append(" had a higher inflation rate than ");
    if first_kept_more {
        s.append(first);
    } else {
        s.append(second);
    }
    s.append("!");
    proof {
        assert(s@ =~= comparison_chars(first@, second@, first_kept_more));
    }
    s
}

} // verus!
