//! Text helpers: decimal rendering of ids and the portable cursor id.
use vstd::prelude::*;

verus! {

/// The character of a decimal digit.
pub open spec fn digit_char(d: nat) -> char
    recommends
        d < 10,
{
    (48 + d) as char
}

/// The decimal digits of `n`, most significant first, without leading zeros.
pub open spec fn decimal_text(n: nat) -> Seq<char>
    decreases n,
{
    if n < 10 {
        seq![digit_char(n)]
    } else {
        decimal_text(n / 10).push(digit_char(n % 10))
    }
}

/// The text `pipewire:`.
pub open spec fn cursor_id_prefix() -> Seq<char> {
    seq!['p', 'i', 'p', 'e', 'w', 'i', 'r', 'e', ':']
}

/// The portable cursor id `pipewire:{scope}:{id}`.
pub open spec fn spec_cursor_id_text(scope: Seq<char>, id: u64) -> Seq<char> {
    cursor_id_prefix() + scope + seq![':'] + decimal_text(id as nat)
}

/// The one-character text of the digit `d`.
fn digit_str(d: u64) -> (res: &'static str)
    requires
        d < 10,
    ensures
        res@ == seq![digit_char(d as nat)],
{
    let digits = "0123456789";
    proof {
        reveal_strlit("0123456789");
    }
    let res = digits.substring_char(d as usize, d as usize + 1);
    assert(res@ =~= seq![digit_char(d as nat)]);
    res
}

/// Appends the decimal digits of `n` to `out`.
pub fn push_decimal(out: &mut String, n: u64)
    ensures
        final(out)@ == old(out)@ + decimal_text(n as nat),
    decreases n,
{
    if n >= 10 {
        push_decimal(out, n / 10);
    }
    out.append(digit_str(n % 10));
    proof {
        if n >= 10 {
            assert(decimal_text(n as nat) == decimal_text((n / 10) as nat).push(
                digit_char((n % 10) as nat),
            ));
        }
    }
    assert(final(out)@ =~= old(out)@ + decimal_text(n as nat));
}

/// The portable cursor id `pipewire:{scope}:{id}`.
pub fn cursor_id_text(scope: &String, id: u64) -> (res: String)
    ensures
        res@ == spec_cursor_id_text(scope@, id),
{
    proof {
        reveal_strlit("pipewire:");
        reveal_strlit(":");
    }
    let mut out = String::from_str("pipewire:");
    out.append(scope.as_str());
    out.append(":");
    push_decimal(&mut out, id);
    assert(out@ =~= spec_cursor_id_text(scope@, id));
    out
}

} // verus!
