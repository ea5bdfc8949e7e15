//! Short display of large amounts of money: millions, billions and
//! trillions with up to three decimals and the word of the current language.
use vstd::prelude::*;
use crate::localization::{text_lookup, LocaleHandler};

verus! {

/// The character of a decimal digit.
pub open spec fn digit_char(d: nat) -> char {
    if d == 0 { '0' } else if d == 1 { '1' } else if d == 2 { '2' } else if d == 3 { '3' } else if d == 4 { '4' }
    else if d == 5 { '5' } else if d == 6 { '6' } else if d == 7 { '7' } else if d == 8 { '8' } else { '9' }
}

/// The decimal digits of `n`, without leading zeros.
pub open spec fn decimal(n: nat) -> Seq<char>
    decreases n,
{
    if n < 10 { seq![digit_char(n)] } else { decimal(n / 10).push(digit_char(n % 10)) }
}

/// The zeros that pad a fraction in `1..1000` to three digits.
pub open spec fn pad3(l: nat) -> Seq<char> {
    if l < 10 { seq!['0', '0'] } else if l < 100 { seq!['0'] } else { Seq::empty() }
}

/// `n` in units of `unit` (a thousand or more), with the thousandths of a
/// unit as up to three decimals when they are not zero, then `word`.
pub open spec fn in_units(n: nat, unit: nat, word: Seq<char>) -> Seq<char> {
    let left = (n % unit) / (unit / 1000);
    if left == 0 {
        decimal(n / unit) + seq![' '] + word
    } else {
        decimal(n / unit) + seq!['.'] + pad3(left) + decimal(left) + seq![' '] + word
    }
}

/// How `shrink_number_for_display` shows `n`, given the words for a
/// million, a billion and a trillion.
pub open spec fn shortened(n: nat, million: Seq<char>, billion: Seq<char>, trillion: Seq<char>) -> Seq<char> {
    if n >= 1_000_000_000_000 {
        in_units(n, 1_000_000_000_000, trillion)
    } else if n >= 1_000_000_000 {
        in_units(n, 1_000_000_000, billion)
    } else if n >= 1_000_000 {
        in_units(n, 1_000_000, million)
    } else {
        decimal(n)
    }
}

/// The one-character string of a decimal digit.
fn digit_str(d: u64) -> (r: &'static str)
    requires
        d < 10,
    ensures
        r@ == seq![digit_char(d as nat)],
{
    proof {
        reveal_strlit("0");
        reveal_strlit("1");
        reveal_strlit("2");
        reveal_strlit("3");
        reveal_strlit("4");
        reveal_strlit("5");
        reveal_strlit("6");
        reveal_strlit("7");
        reveal_strlit("8");
        reveal_strlit("9");
    }
    if d == 0 {
        "0"
    } else if d == 1 {
        "1"
    } else if d == 2 {
        "2"
    } else if d == 3 {
        "3"
    } else if d == 4 {
        "4"
    } else if d == 5 {
        "5"
    } else if d == 6 {
        "6"
    } else if d == 7 {
        "7"
    } else if d == 8 {
        "8"
    } else {
        "9"
    }
}

/// The decimal digits of `n`, without leading zeros.
fn decimal_string(n: u64) -> (r: String)
    ensures
        r@ == decimal(n as nat),
    decreases n,
{
    if n < 10 {
        let r = String::from_str(digit_str(n));
        proof {
            assert(r@ =~= decimal(n as nat));
        }
        r
    } else {
        let mut r = decimal_string(n / 10);
        r.append(digit_str(n % 10));
        proof {
            assert(r@ =~= decimal(n as nat));
        }
        r
    }
}

/// The current language has the words for a million, a billion and a trillion.
pub open spec fn has_number_words(locale_handler: &LocaleHandler) -> bool {
    &&& text_lookup(locale_handler.language_data@, "million"@) is Some
    &&& text_lookup(locale_handler.language_data@, "billion"@) is Some
    &&& text_lookup(locale_handler.language_data@, "trillion"@) is Some
}

fn in_units_string(n: u64, unit: u64, word: &String) -> (r: String)
    requires
        unit == 1_000_000 || unit == 1_000_000_000 || unit == 1_000_000_000_000,
    ensures
        r@ == in_units(n as nat, unit as nat, word@),
{
    let left = (n % unit) / (unit / 1000);
    let mut s = decimal_string(n / unit);
    proof {
        reveal_strlit(" ");
        reveal_strlit(".");
        reveal_strlit("00");
        reveal_strlit("0");
    }
    if left == 0 {
        s.append(" ");
        s.append(word.as_str());
        return s;
    }
    s.append(".");
    if left < 10 {
        s.append("00");
    } else if left < 100 {
        s.append("0");
    }
    let digits = decimal_string(left);
    s.append(digits.as_str());
    s.append(" ");
    s.append(word.as_str());
    proof {
        assert(s@ =~= in_units(n as nat, unit as nat, word@));
    }
    s
}

/// `number` for display: below a million in full, otherwise in millions,
/// billions or trillions with the word of the current language.
pub fn shrink_number_for_display(number: usize, locale_handler: &LocaleHandler) -> (r: String)
    requires
        locale_handler.wf(),
        number >= 1_000_000 ==> has_number_words(locale_handler),
    ensures
        r@ == shortened(
            number as nat,
            text_lookup(locale_handler.language_data@, "million"@).unwrap(),
            text_lookup(locale_handler.language_data@, "billion"@).unwrap(),
            text_lookup(locale_handler.language_data@, "trillion"@).unwrap(),
        ),
{
    let n = number as u64;
    if n >= 1_000_000 {
        let (unit, key): (u64, &str) = if n >= 1_000_000_000_000 {
            (1_000_000_000_000, "trillion")
        } else if n >= 1_000_000_000 {
            (1_000_000_000, "billion")
        } else {
            (1_000_000, "million")
        };
        let word = match locale_handler.phrase(key) {
            Some(w) => w,
            None => {
                return decimal_string(n);
            },
        };
        return in_units_string(n, unit, &word);
    }
    decimal_string(n)
}

} // verus!
