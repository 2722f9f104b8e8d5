use vstd::prelude::*;

verus! {

/// Minor units in one thousandth of a display unit.
pub const MILLI_SCALE: u128 = 1_000_000_000_000_000_000_000;

/// Minor units in one display unit.
pub const UNIT_SCALE: u128 = 1_000_000_000_000_000_000_000_000;

/// The character of a decimal digit.
pub open spec fn digit_char(d: nat) -> char {
    if d == 0 { '0' }
    else if d == 1 { '1' }
    else if d == 2 { '2' }
    else if d == 3 { '3' }
    else if d == 4 { '4' }
    else if d == 5 { '5' }
    else if d == 6 { '6' }
    else if d == 7 { '7' }
    else if d == 8 { '8' }
    else { '9' }
}

/// The decimal text of `n`, most significant digit first, without leading zeros.
pub open spec fn decimal(n: nat) -> Seq<char>
    decreases n,
{
    if n < 10 {
        seq![digit_char(n)]
    } else {
        decimal(n / 10).push(digit_char(n % 10))
    }
}

/// Three digits of `m`, zero padded (for `m < 1000`).
pub open spec fn three_digits(m: nat) -> Seq<char> {
    seq![digit_char(m / 100), digit_char((m / 10) % 10), digit_char(m % 10)]
}

/// A stake in display units with three decimals, truncated below the third.
pub open spec fn amount_text(stake: nat) -> Seq<char> {
    decimal(stake / 1_000_000_000_000_000_000_000_000)
        + seq!['.']
        + three_digits((stake / 1_000_000_000_000_000_000_000) % 1000)
}

/// The name of the side a bet is placed on.
pub open spec fn side_text(head: bool) -> Seq<char> {
    if head { seq!['H', 'E', 'A', 'D', 'S'] } else { seq!['T', 'A', 'I', 'L', 'S'] }
}

/// The name of a bet's outcome.
pub open spec fn outcome_text(won: bool) -> Seq<char> {
    if won { seq!['w', 'o', 'n'] } else { seq!['l', 'o', 's', 't'] }
}

/// The line recorded in the history for one settled bet.
pub open spec fn bet_message(caller: Seq<char>, head: bool, stake: nat, won: bool) -> Seq<char> {
    caller
        + seq![' ', 'f', 'l', 'i', 'p', 'p', 'e', 'd', ' ']
        + side_text(head)
        + seq![' ', 'b', 'e', 't', 't', 'i', 'n', 'g', ' ']
        + amount_text(stake)
        + seq![' ', 'Ⓝ', ' ', ' ', 'a', 'n', 'd', ' ']
        + outcome_text(won)
}

fn digit_str(d: u128) -> (r: &'static str)
    requires
        d < 10,
    ensures
        r@ == seq![digit_char(d as nat)],
{
    if d == 0 {
        proof { reveal_strlit("0"); }
        "0"
    } else if d == 1 {
        proof { reveal_strlit("1"); }
        "1"
    } else if d == 2 {
        proof { reveal_strlit("2"); }
        "2"
    } else if d == 3 {
        proof { reveal_strlit("3"); }
        "3"
    } else if d == 4 {
        proof { reveal_strlit("4"); }
        "4"
    } else if d == 5 {
        proof { reveal_strlit("5"); }
        "5"
    } else if d == 6 {
        proof { reveal_strlit("6"); }
        "6"
    } else if d == 7 {
        proof { reveal_strlit("7"); }
        "7"
    } else if d == 8 {
        proof { reveal_strlit("8"); }
        "8"
    } else {
        proof { reveal_strlit("9"); }
        "9"
    }
}

/// Appends the decimal text of `n` to `out`.
pub fn push_decimal(out: &mut String, n: u128)
    ensures
        final(out)@ == old(out)@ + decimal(n as nat),
    decreases n,
{
    if n >= 10 {
        push_decimal(out, n / 10);
    }
    out.append(digit_str(n % 10));
    proof {
        assert(final(out)@ =~= old(out)@ + decimal(n as nat));
    }
}

/// Renders a stake in display units with three decimals ("1.000", "0.000").
pub fn format_amount(stake: u128) -> (r: String)
    ensures
        r@ == amount_text(stake as nat),
{
    let milli = stake / MILLI_SCALE;
    let mut out = String::new();
    push_decimal(&mut out, stake / UNIT_SCALE);
    proof { reveal_strlit("."); }
    out.append(".");
    let frac = milli % 1000;
    out.append(digit_str(frac / 100));
    out.append(digit_str((frac / 10) % 10));
    out.append(digit_str(frac % 10));
    proof {
        assert(out@ =~= amount_text(stake as nat));
    }
    out
}

/// Builds the history line for one settled bet.
pub fn format_bet_message(caller: &str, head: bool, stake: u128, won: bool) -> (r: String)
    ensures
        r@ == bet_message(caller@, head, stake as nat, won),
{
    let mut out = String::from_str(caller);
    proof { reveal_strlit(" flipped "); }
    out.append(" flipped ");
    if head {
        proof { reveal_strlit("HEADS"); }
        out.append("HEADS");
    } else {
        proof { reveal_strlit("TAILS"); }
        out.append("TAILS");
    }
    proof { reveal_strlit(" betting "); }
    out.append(" betting ");
    let amount = format_amount(stake);
    out.append(amount.as_str());
    proof { reveal_strlit(" Ⓝ  and "); }
    out.append(" Ⓝ  and ");
    if won {
        proof { reveal_strlit("won"); }
        out.append("won");
    } else {
        proof { reveal_strlit("lost"); }
        out.append("lost");
    }
    proof {
        assert(out@ =~= bet_message(caller@, head, stake as nat, won));
    }
    out
}

} // verus!
