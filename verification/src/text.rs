use vstd::prelude::*;
use vstd::string::*;

verus! {

/// The decimal digit character for `d` in `0..10`.
pub open spec fn digit_char(d: int) -> char {
    if d == 0 { '0' }
    else if d == 1 { '1' }
    else if d == 2 { '2' }
    else if d == 3 { '3' }
    else if d == 4 { '4' }
    else if d == 5 { '5' }
    else if d == 6 { '6' }
    else if d == 7 { '7' }
    else if d == 8 { '8' }
    else { '9' }
}

/// Decimal notation of a natural number, without leading zeros.
pub open spec fn decimal_nat(n: nat) -> Seq<char>
    decreases n,
{
    if n < 10 {
        seq![digit_char(n as int)]
    } else {
        decimal_nat(n / 10).push(digit_char((n % 10) as int))
    }
}

/// Decimal notation of an integer, as Rust's `Display` writes it.
pub open spec fn decimal(n: int) -> Seq<char> {
    if n < 0 {
        seq!['-'] + decimal_nat((-n) as nat)
    } else {
        decimal_nat(n as nat)
    }
}

fn digit_text(d: u64) -> (s: String)
    requires
        d < 10,
    ensures
        s@ == seq![digit_char(d as int)],
{
    let lit = if d == 0 { "0" }
        else if d == 1 { "1" }
        else if d == 2 { "2" }
        else if d == 3 { "3" }
        else if d == 4 { "4" }
        else if d == 5 { "5" }
        else if d == 6 { "6" }
        else if d == 7 { "7" }
        else if d == 8 { "8" }
        else { "9" };
    proof {
        reveal_strlit("0");
        reveal_strlit("1");
        reveal_strlit("2");
        reveal_strlit("3");
        reveal_strlit("4");
        reveal_strlit("5");
        reveal_strlit("6");
        reveal_strlit("7");
        reveal_strlit("8");
        reveal_strlit("9");
        assert(lit@ =~= seq![digit_char(d as int)]);
    }
    lit.to_owned()
}

/// Decimal notation of an unsigned number.
pub fn decimal_text_u64(n: u64) -> (s: String)
    ensures
        s@ == decimal_nat(n as nat),
{
    let mut m: u64 = n / 10;
    let mut out = digit_text(n % 10);
    while m > 0
        invariant
            decimal_nat(n as nat) == (if m == 0 { Seq::<char>::empty() } else { decimal_nat(m as nat) }) + out@,
        decreases m,
    {
        let d = digit_text(m % 10);
        let ghost old_out = out@;
        out = d.concat(out.as_str());
        assert(decimal_nat(m as nat) == (if m / 10 == 0 { Seq::<char>::empty() } else { decimal_nat((m / 10) as nat) }) + seq![digit_char((m % 10) as int)]) by {
            if m >= 10 {
                assert(decimal_nat(m as nat) =~= decimal_nat((m / 10) as nat) + seq![digit_char((m % 10) as int)]);
            } else {
                assert(decimal_nat(m as nat) =~= Seq::<char>::empty() + seq![digit_char((m % 10) as int)]);
            }
        }
        assert(out@ == seq![digit_char((m % 10) as int)] + old_out);
        m = m / 10;
        assert(decimal_nat(n as nat) =~= (if m == 0 { Seq::<char>::empty() } else { decimal_nat(m as nat) }) + out@);
    }
    assert(decimal_nat(n as nat) =~= out@);
    out
}

/// Decimal notation of a signed number, as Rust's `Display` writes it.
pub fn decimal_text(n: i64) -> (s: String)
    ensures
        s@ == decimal(n as int),
{
    if n < 0 {
        let magnitude: u64 = ((-(n + 1)) as u64) + 1;
        let digits = decimal_text_u64(magnitude);
        let minus = "-";
        proof {
            reveal_strlit("-");
        }
        let s = minus.to_owned().concat(digits.as_str());
        assert(s@ =~= seq!['-'] + decimal_nat((-n) as nat));
        s
    } else {
        decimal_text_u64(n as u64)
    }
}

/// Decimal notation of a `usize`.
pub fn decimal_text_usize(n: usize) -> (s: String)
    ensures
        s@ == decimal(n as int),
{
    decimal_text_u64(n as u64)
}

/// The concatenation of two texts.
pub fn cat(a: &str, b: &str) -> (s: String)
    ensures
        s@ == a@ + b@,
{
    a.to_owned().concat(b)
}

/// The concatenation of three texts.
pub fn cat3(a: &str, b: &str, c: &str) -> (s: String)
    ensures
        s@ == a@ + b@ + c@,
{
    a.to_owned().concat(b).concat(c)
}

/// The concatenation of five texts.
pub fn cat5(a: &str, b: &str, c: &str, d: &str, e: &str) -> (s: String)
    ensures
        s@ == a@ + b@ + c@ + d@ + e@,
{
    a.to_owned().concat(b).concat(c).concat(d).concat(e)
}

/// The concatenation of seven texts.
pub fn cat7(a: &str, b: &str, c: &str, d: &str, e: &str, f: &str, g: &str) -> (s: String)
    ensures
        s@ == a@ + b@ + c@ + d@ + e@ + f@ + g@,
{
    a.to_owned().concat(b).concat(c).concat(d).concat(e).concat(f).concat(g)
}

/// A copy of an optional text.
pub fn copy_opt_string(s: &Option<String>) -> (r: Option<String>)
    ensures
        r == *s,
{
    match s {
        Some(t) => Some(t.clone()),
        None => None,
    }
}

/// The view of an optional text.
pub open spec fn opt_view(s: Option<String>) -> Option<Seq<char>> {
    match s {
        Some(t) => Some(t@),
        None => None,
    }
}

/// Whether two texts are equal, by their characters.
pub fn text_eq(a: &String, b: &String) -> (r: bool)
    ensures
        r == (a@ == b@),
{
    a.eq(b)
}

} // verus!
