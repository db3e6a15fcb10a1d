//! The list of TCP ports: decimal numbers, separated by commas.
use crate::text;
use crate::text::CharClass;
use vstd::prelude::*;

verus! {

/// What is said of a list with a piece that is no number of 16 bits.
pub const INVALID_PORTS: &'static str = "Puertos invalidos: usa numeros separados por comas";

/// What is said of a list that holds zero.
pub const PORT_RANGE: &'static str = "Los puertos deben estar entre 1 y 65535";

/// The digits of a number that may have a plus sign before it.
pub open spec fn unsigned_part(s: Seq<char>) -> Seq<char> {
    if s.len() > 0 && s.first() == '+' {
        s.drop_first()
    } else {
        s
    }
}

/// The number of 16 bits that `s` stands for: decimal digits, with white space around
/// them and a plus sign before them where there is one.
pub open spec fn port_number(s: Seq<char>) -> Option<u16> {
    let digits = unsigned_part(text::trimmed(s));
    if digits.len() > 0 && text::all_digits(digits) && text::digits_value(digits) <= 0xffff {
        Some(text::digits_value(digits) as u16)
    } else {
        None
    }
}

/// The pieces of a list of ports.
pub open spec fn port_pieces(s: Seq<char>) -> Seq<Seq<char>> {
    text::pieces(s, CharClass::Only(','))
}

/// Every piece of the list is a number.
pub open spec fn all_numbers(s: Seq<char>) -> bool {
    forall|i: int| 0 <= i < port_pieces(s).len() ==> port_number(#[trigger] port_pieces(s)[i]) is Some
}

/// The numbers of a list whose pieces are numbers.
pub open spec fn port_list(s: Seq<char>) -> Seq<u16> {
    Seq::new(port_pieces(s).len(), |i: int| port_number(port_pieces(s)[i])->0)
}

fn read_port(s: &[char]) -> (r: Option<u16>)
    ensures
        r == port_number(s@),
{
    let t = text::trim(s);
    let digits = if t.len() > 0 && t[0] == '+' {
        assert(t@.subrange(1, t@.len() as int) =~= t@.drop_first());
        vstd::slice::slice_subrange(t, 1, t.len())
    } else {
        t
    };
    match text::read_digits(digits, 0xffff) {
        Some(n) => Some(n as u16),
        None => None,
    }
}

/// Reads a list of ports. Every piece has to be a number of 16 bits, and none zero.
pub fn read_ports(s: &str) -> (r: Result<Vec<u16>, String>)
    ensures
        match r {
            Ok(ports) => {
                &&& all_numbers(s@)
                &&& !port_list(s@).contains(0)
                &&& ports@ == port_list(s@)
            },
            Err(e) => if all_numbers(s@) {
                port_list(s@).contains(0) && e@ == PORT_RANGE@
            } else {
                e@ == INVALID_PORTS@
            },
        },
{
    let parts = text::split(text::chars_of(s).as_slice(), &CharClass::Only(','));
    let mut ports: Vec<u16> = Vec::new();
    let mut zero: bool = false;
    let mut i: usize = 0;
    while i < parts.len()
        invariant
            i <= parts.len(),
            text::contents(parts@) == port_pieces(s@),
            ports@.len() == i,
            forall|j: int|
                0 <= j < i ==> port_number(#[trigger] port_pieces(s@)[j]) == Some(ports@[j]),
            zero == ports@.contains(0),
        decreases parts.len() - i,
    {
        assert(text::contents(parts@)[i as int] == parts@[i as int]@);
        match read_port(parts[i].as_slice()) {
            Some(n) => {
                let ghost before = ports@;
                ports.push(n);
                proof {
                    assert(ports@[i as int] == n);
                    if before.contains(0) {
                        let k = choose|k: int| 0 <= k < before.len() && before[k] == 0;
                        assert(ports@[k] == 0);
                    }
                }
                if n == 0 {
                    zero = true;
                }
            },
            None => {
                return Err(INVALID_PORTS.to_owned());
            },
        }
        i += 1;
    }
    assert(ports@ =~= port_list(s@));
    if zero {
        return Err(PORT_RANGE.to_owned());
    }
    Ok(ports)
}

/// The list of `ports` written with commas.
pub open spec fn written_ports(ports: Seq<u16>) -> Seq<char> {
    text::joined(Seq::new(ports.len(), |i: int| text::decimal(ports[i] as nat)), seq![','])
}

/// Ports that are written out in decimal, with commas, read as themselves.
pub proof fn law_ports_read_back(ports: Seq<u16>)
    requires
        ports.len() > 0,
    ensures
        all_numbers(written_ports(ports)),
        port_list(written_ports(ports)) == ports,
{
    let parts = Seq::new(ports.len(), |i: int| text::decimal(ports[i] as nat));
    assert forall|i: int| 0 <= i < parts.len() implies text::free_of(
        #[trigger] parts[i],
        CharClass::Only(','),
    ) by {
        text::law_decimal_reads_back(ports[i] as nat);
    }
    text::law_join_then_split(parts, ',', CharClass::Only(','));
    assert forall|i: int| 0 <= i < parts.len() implies port_number(#[trigger] parts[i]) == Some(
        ports[i],
    ) by {
        let d = parts[i];
        text::law_decimal_reads_back(ports[i] as nat);
        assert(text::is_digit(d[0]) && text::is_digit(d[d.len() - 1]));
        assert(text::trim_start(d, CharClass::WhiteSpace) == d);
        assert(text::trim_end(d, CharClass::WhiteSpace) == d);
    }
    assert(port_list(written_ports(ports)) =~= ports);
}

/// A port is read from digits with white space around them and a plus sign before them
/// where there is one; digits beyond 65535 are refused.
pub proof fn law_port_is_the_number_written(
    lead: Seq<char>,
    sign: Seq<char>,
    digits: Seq<char>,
    tail: Seq<char>,
)
    requires
        text::all_white_space(lead),
        text::all_white_space(tail),
        sign.len() == 0 || sign == seq!['+'],
        digits.len() > 0,
        text::all_digits(digits),
    ensures
        text::digits_value(digits) <= 65535 ==> (port_number(lead + (sign + digits) + tail) is Some
            && port_number(lead + (sign + digits) + tail)->0 == text::digits_value(digits)),
        text::digits_value(digits) > 65535 ==> port_number(lead + (sign + digits) + tail) is None,
{
    let middle = sign + digits;
    assert(text::is_digit(digits[0]) && text::is_digit(digits[digits.len() - 1]));
    assert(middle.last() == digits[digits.len() - 1]);
    if sign.len() == 0 {
        assert(middle =~= digits);
    } else {
        assert(middle.first() == '+');
        assert(middle.drop_first() =~= digits);
    }
    text::law_trimmed_is_the_middle(lead, middle, tail);
}

/// Whatever is read as a port is written as digits with that value, with at most a plus
/// sign before them and white space around: `parts` are the white space before, the sign,
/// the digits, and the white space after.
pub proof fn law_only_numbers_are_ports(s: Seq<char>) -> (parts: (
    Seq<char>,
    Seq<char>,
    Seq<char>,
    Seq<char>,
))
    requires
        port_number(s) is Some,
    ensures
        s == parts.0 + (parts.1 + parts.2) + parts.3,
        text::all_white_space(parts.0),
        text::all_white_space(parts.3),
        parts.1.len() == 0 || parts.1 == seq!['+'],
        parts.2.len() > 0,
        text::all_digits(parts.2),
        text::digits_value(parts.2) == port_number(s)->0,
{
    let ends = text::law_trimming_drops_only_white_space(s);
    let t = text::trimmed(s);
    if t.first() == '+' {
        assert(t =~= seq!['+'] + t.drop_first());
        (ends.0, seq!['+'], t.drop_first(), ends.1)
    } else {
        assert(t =~= Seq::<char>::empty() + t);
        (ends.0, Seq::empty(), t, ends.1)
    }
}

/// A list of ports is read piece by piece: pieces written with commas between them give a
/// list where each is a number, and then the numbers come in the order of the pieces.
pub proof fn law_ports_piece_by_piece(parts: Seq<Seq<char>>, i: int)
    requires
        0 <= i < parts.len(),
        forall|k: int| 0 <= k < parts.len() ==> !(#[trigger] parts[k]).contains(','),
    ensures
        all_numbers(text::joined(parts, seq![','])) <==> forall|k: int|
            0 <= k < parts.len() ==> port_number(#[trigger] parts[k]) is Some,
        port_list(text::joined(parts, seq![','])).len() == parts.len(),
        port_number(parts[i]) is Some ==> port_number(parts[i]) == Some(
            port_list(text::joined(parts, seq![',']))[i],
        ),
{
    assert forall|k: int| 0 <= k < parts.len() implies text::free_of(
        #[trigger] parts[k],
        CharClass::Only(','),
    ) by {
        assert forall|j: int| 0 <= j < parts[k].len() implies parts[k][j] != ',' by {
            if parts[k][j] == ',' {
                assert(parts[k].contains(','));
            }
        }
    }
    text::law_join_then_split(parts, ',', CharClass::Only(','));
}

/// A list of ports is accepted exactly when every piece between its commas is a number
/// from 1 to 65535, and gives those numbers in order. A piece that is no number is told
/// first, then a zero.
#[verifier::rlimit(60)]
pub proof fn law_accepted_ports(
    parts: Seq<Seq<char>>,
    s: &str,
    r: Result<Vec<u16>, String>,
)
    requires
        parts.len() > 0,
        forall|k: int| 0 <= k < parts.len() ==> !(#[trigger] parts[k]).contains(','),
        s@ == text::joined(parts, seq![',']),
        call_ensures(read_ports, (s,), r),
    ensures
        r is Ok <==> forall|k: int|
            0 <= k < parts.len() ==> port_number(#[trigger] parts[k]) is Some && port_number(
                parts[k],
            )->0 != 0,
        r matches Ok(ports) ==> ports@.len() == parts.len() && forall|k: int|
            0 <= k < parts.len() ==> port_number(#[trigger] parts[k]) == Some(ports@[k]),
        (exists|k: int| 0 <= k < parts.len() && port_number(#[trigger] parts[k]) is None) ==> r is Err
            && r->Err_0@ == "Puertos invalidos: usa numeros separados por comas"@,
        r is Err && (forall|k: int|
            0 <= k < parts.len() ==> port_number(#[trigger] parts[k]) is Some) ==> r->Err_0@
            == "Los puertos deben estar entre 1 y 65535"@,
{
    let list = port_list(s@);
    law_ports_piece_by_piece(parts, 0);
    assert forall|k: int| 0 <= k < parts.len() && port_number(#[trigger] parts[k]) is Some implies (
    port_number(parts[k]) == Some(list[k])) by {
        law_ports_piece_by_piece(parts, k);
    }
    if all_numbers(s@) {
        if list.contains(0) {
            let k = choose|k: int| 0 <= k < list.len() && list[k] == 0;
            assert(port_number(parts[k]) == Some(list[k]));
        } else {
            assert forall|k: int| 0 <= k < parts.len() implies port_number(#[trigger] parts[k])
                is Some && port_number(parts[k])->0 != 0 by {
                assert(list[k] != 0 || list.contains(0));
            }
        }
    }
}

} // verus!
