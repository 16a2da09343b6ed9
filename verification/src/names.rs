//! The names that an expansion makes up: the placeholder type parameters,
//! one per position, and the name of a type that the caller left unnamed.

use crate::buf::BufW;
use crate::tokens::{is_ascii_digit, is_ascii_letter, push_ident, stream_new, stream_view, Tok};
use numtoa::NumToA;
use proc_macro2::TokenStream;
use vstd::prelude::*;
use vstd::utf8::is_ascii_chars;

verus! {

/// The character of the decimal digit `d`.
pub open spec fn digit_char(d: nat) -> char {
    (d + 48) as char
}

/// The decimal rendering of `n`: no sign, no leading zero, `"0"` for zero.
pub open spec fn decimal_text(n: nat) -> Seq<char>
    decreases n,
{
    if n < 10 {
        seq![digit_char(n)]
    } else {
        decimal_text(n / 10).push(digit_char(n % 10))
    }
}

/// The number that a sequence of decimal digits spells.
pub open spec fn decimal_value(digits: Seq<char>) -> nat
    decreases digits.len(),
{
    if digits.len() == 0 {
        0
    } else {
        (decimal_value(digits.drop_last()) * 10 + (digits.last() as nat - 48)) as nat
    }
}

/// `10` to the power `k`.
pub open spec fn pow10(k: nat) -> nat
    decreases k,
{
    if k == 0 {
        1
    } else {
        10 * pow10((k - 1) as nat)
    }
}

/// The name of the placeholder type parameter at position `i`: the letter
/// `T` and the position in decimal.
pub open spec fn param_name(i: nat) -> Seq<char> {
    seq!['T'] + decimal_text(i)
}

/// A decimal rendering is made of digits, at least one.
pub proof fn lemma_decimal_digits(n: nat)
    ensures
        decimal_text(n).len() >= 1,
        forall|i: int|
            0 <= i < decimal_text(n).len() ==> is_ascii_digit(#[trigger] decimal_text(n)[i]),
    decreases n,
{
    if n >= 10 {
        lemma_decimal_digits(n / 10);
    }
}

/// A number below `10^k` has at most `k` decimal digits.
pub proof fn lemma_decimal_len(n: nat, k: nat)
    requires
        k >= 1,
        n < pow10(k),
    ensures
        decimal_text(n).len() <= k,
    decreases k,
{
    reveal_with_fuel(pow10, 2);
    if n >= 10 {
        lemma_decimal_len(n / 10, (k - 1) as nat);
    }
}

/// Reading a decimal rendering gives the number back.
pub proof fn lemma_decimal_round_trip(n: nat)
    ensures
        decimal_value(decimal_text(n)) == n,
    decreases n,
{
    reveal_with_fuel(decimal_value, 2);
    if n < 10 {
        assert(decimal_text(n).drop_last() =~= Seq::<char>::empty());
    } else {
        lemma_decimal_round_trip(n / 10);
        assert(decimal_text(n).drop_last() =~= decimal_text(n / 10));
    }
}

/// `NumToA::numtoa_str` in base 10, over a buffer of the 20 bytes that the
/// longest `usize` takes: the decimal rendering of `n`, written into the
/// buffer and borrowed from it.
#[verifier::external_body]
fn decimal_str<'a>(n: usize, digits: &'a mut [u8; 20]) -> (s: &'a str)
    ensures
        s@ == decimal_text(n as nat),
{
    n.numtoa_str(10, digits)
}

/// The placeholder type parameter for position `n`, as a stream of one
/// identifier.
pub fn gen_ty_anot(n: usize) -> (ts: TokenStream)
    ensures
        stream_view(ts) == seq![Tok::Ident(param_name(n as nat))],
{
    let mut bufn = [0u8; 20];
    let n_str = decimal_str(n, &mut bufn);
    proof {
        lemma_decimal_digits(n as nat);
        assert(pow10(20) == 100000000000000000000nat) by {
            reveal_with_fuel(pow10, 21);
        }
        lemma_decimal_len(n as nat, 20);
    }
    let mut buf = [0u8; 21];
    let mut w = BufW::new(&mut buf);
    w.write_char('T').unwrap();
    w.write_str(n_str).unwrap();
    let name = w.utf8();
    assert(name@ =~= param_name(n as nat));
    let mut ts = stream_new();
    push_ident(&mut ts, name);
    ts
}

/// The 62 symbols that the suffix of a made-up type name is drawn from.
pub const ID_CHAR_SET: [char; 62] = [
    'A', 'B', 'C', 'D', 'E', 'F', 'G', 'H', 'I', 'J', 'K', 'L', 'M', 'N', 'O', 'P', 'Q', 'R',
    'S', 'T', 'U', 'V', 'W', 'X', 'Y', 'Z', 'a', 'b', 'c', 'd', 'e', 'f', 'g', 'h', 'i', 'j',
    'k', 'l', 'm', 'n', 'o', 'p', 'q', 'r', 's', 't', 'u', 'v', 'w', 'x', 'y', 'z', '0', '1',
    '2', '3', '4', '5', '6', '7', '8', '9',
];

/// The number of characters in the suffix of a made-up type name.
pub const SUFFIX_LEN: usize = 8;

/// True of the letters and digits of the ASCII alphabet, the symbols of
/// [`ID_CHAR_SET`].
pub open spec fn is_id_char(c: char) -> bool {
    is_ascii_letter(c) || is_ascii_digit(c)
}

/// True of a text that can be the suffix of a made-up type name: eight
/// symbols of the alphabet.
pub open spec fn valid_suffix(s: Seq<char>) -> bool {
    &&& s.len() == SUFFIX_LEN
    &&& forall|i: int| 0 <= i < s.len() ==> is_id_char(#[trigger] s[i])
}

/// The prefix that every made-up type name begins with.
pub open spec fn name_prefix() -> Seq<char> {
    seq!['_', '_', 'A', 'n', 'y', 'm', '_']
}

/// The made-up type name with the suffix `suffix`.
pub open spec fn struct_name_text(suffix: Seq<char>) -> Seq<char> {
    name_prefix() + suffix
}

/// `nanoid::format` with the random bytes of `nanoid::rngs::default`:
/// `size` characters, each one of `alphabet`. Which ones is a matter of
/// chance. The function does not return for a size of zero or an empty
/// alphabet, panics on an alphabet of more than 255 symbols, asks for eight
/// times the size in bytes at a time, which is to fit in a `usize`, and
/// counts the length of what it made in bytes, so the alphabet is to be
/// ASCII.
#[verifier::external_body]
fn random_text(alphabet: &[char], size: usize) -> (id: String)
    requires
        0 < alphabet@.len() <= 255,
        0 < size <= 0xfff_ffff,
        is_ascii_chars(alphabet@),
    ensures
        id@.len() == size,
        forall|i: int| 0 <= i < id@.len() ==> alphabet@.contains(#[trigger] id@[i]),
{
    nanoid::format(nanoid::rngs::default, alphabet, size)
}

/// Where the suffix of a made-up type name comes from.
pub struct NameSupply {
    fixed: Option<String>,
}

impl NameSupply {
    #[verifier::type_invariant]
    spec fn inv(self) -> bool {
        self.fixed matches Some(s) ==> valid_suffix(s@)
    }

    /// The one suffix that this supply gives, or `None` where it draws a
    /// new one at random each time.
    pub closed spec fn view(&self) -> Option<Seq<char>> {
        match self.fixed {
            Some(s) if valid_suffix(s@) => Some(s@),
            _ => None,
        }
    }

    /// True of the suffixes that this supply can give: every suffix that
    /// is one, or the one that the supply is fixed to.
    pub open spec fn may_give(&self, suffix: Seq<char>) -> bool {
        &&& valid_suffix(suffix)
        &&& self@ matches Some(s) ==> suffix == s
    }

    /// A supply that draws each suffix at random.
    pub fn random() -> (supply: Self)
        ensures
            supply@ is None,
    {
        NameSupply { fixed: None }
    }

    /// A supply that always gives `suffix`, if that is a suffix at all:
    /// eight letters and digits of the ASCII alphabet.
    pub fn fixed(suffix: &str) -> (supply: Option<Self>)
        ensures
            supply is Some <==> valid_suffix(suffix@),
            supply matches Some(s) ==> s@ == Some(suffix@),
    {
        if !suffix.is_ascii() || suffix.unicode_len() != SUFFIX_LEN {
            return None;
        }
        let mut i: usize = 0;
        while i < SUFFIX_LEN
            invariant
                i <= SUFFIX_LEN,
                suffix@.len() == SUFFIX_LEN,
                is_ascii_chars(suffix@),
                forall|k: int| 0 <= k < i ==> is_id_char(#[trigger] suffix@[k]),
            decreases SUFFIX_LEN - i,
        {
            let b = suffix.get_ascii(i);
            let is_upper = 65 <= b && b <= 90;
            let is_lower = 97 <= b && b <= 122;
            let is_digit = 48 <= b && b <= 57;
            if !(is_upper || is_lower || is_digit) {
                assert(!is_id_char(suffix@[i as int]));
                return None;
            }
            assert(is_id_char(suffix@[i as int]));
            i = i + 1;
        }
        Some(NameSupply { fixed: Some(suffix.to_owned()) })
    }

    /// Every supply can give some suffix, and a supply that is fixed to a
    /// suffix gives no other.
    pub proof fn lemma_gives_some(&self) -> (suffix: Seq<char>)
        ensures
            self.may_give(suffix),
            self@ matches Some(s) ==> valid_suffix(s) && suffix == s,
    {
        match self@ {
            Some(s) => s,
            None => Seq::new(8, |i: int| 'A'),
        }
    }

    /// The next suffix.
    pub fn draw(&self) -> (suffix: String)
        ensures
            self.may_give(suffix@),
    {
        proof {
            use_type_invariant(self);
        }
        match &self.fixed {
            Some(s) => s.clone(),
            None => {
                proof {
                    lemma_alphabet();
                }
                let id = random_text(ID_CHAR_SET.as_slice(), SUFFIX_LEN);
                assert forall|i: int| 0 <= i < id@.len() implies is_id_char(#[trigger] id@[i]) by {
                    let k = choose|k: int| 0 <= k < 62 && ID_CHAR_SET@[k] == id@[i];
                    assert(is_id_char(ID_CHAR_SET@[k]));
                }
                id
            },
        }
    }
}

/// The alphabet holds 62 symbols, letters and digits all.
pub proof fn lemma_alphabet()
    ensures
        ID_CHAR_SET@.len() == 62,
        forall|k: int| 0 <= k < 62 ==> is_id_char(#[trigger] ID_CHAR_SET@[k]),
        is_ascii_chars(ID_CHAR_SET@),
{
}

/// The name of a type that the caller left unnamed, as a stream of one
/// identifier: the fixed prefix and a suffix from `supply`.
pub fn gen_struct_nm(supply: &NameSupply) -> (ts: TokenStream)
    ensures
        exists|suffix: Seq<char>| #[trigger]
            supply.may_give(suffix) && stream_view(ts) == seq![
                Tok::Ident(struct_name_text(suffix)),
            ],
{
    let id = supply.draw();
    let mut buf = [0u8; 15];
    let mut w = BufW::new(&mut buf);
    proof {
        reveal_strlit("__Anym_");
        assert("__Anym_"@ =~= name_prefix());
    }
    w.write_str("__Anym_").unwrap();
    w.write_str(id.as_str()).unwrap();
    let name = w.utf8();
    assert(name@ =~= struct_name_text(id@));
    let mut ts = stream_new();
    push_ident(&mut ts, name);
    assert(supply.may_give(id@));
    ts
}

} // verus!
