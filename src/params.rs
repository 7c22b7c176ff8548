//! Group parameters as an operator writes them down: hexadecimal numerals,
//! possibly spread over several lines, and a second generator derived from
//! the first.
use crate::bignat::{hex_accepts, hex_digits, hex_value, mod_pow, BigNat};
use crate::chaum_pedersen::ChaumPedersen;
use crate::error::AuthError;
use vstd::prelude::*;

verus! {

#[verifier::external_type_specification]
#[verifier::external_body]
#[verifier::reject_recursive_types(K)]
#[verifier::reject_recursive_types(V)]
pub struct ExTomlMap<K, V>(toml::map::Map<K, V>);

#[verifier::external_type_specification]
#[verifier::external_body]
pub struct ExTomlValue(toml::Value);

/// Why a group parameter could not be read from a parameters table.
#[derive(Debug, Clone, Copy, PartialEq, Eq, Structural)]
pub enum ParamError {
    /// The table has no entry for the key.
    MissingKey,
    /// The entry is not a string.
    NotAString,
    /// The string is not a hexadecimal numeral.
    NotHex,
}

/// What a parameters table holds: for each key, the text of its value where
/// that value is a string, and `None` where it is of another kind.
pub uninterp spec fn table_texts(t: toml::Table) -> Map<Seq<char>, Option<Seq<char>>>;

/// Relies on `toml::map::Map::get` and `toml::Value::as_str`: `None` for a
/// key the table lacks, else the text of its value, `None` inside where the
/// value is not a string.
#[verifier::external_body]
fn table_text<'a>(config: &'a toml::Table, key: &str) -> (r: Option<Option<&'a str>>)
    ensures
        match r {
            None => !table_texts(*config).contains_key(key@),
            Some(None) => table_texts(*config).contains_key(key@) && table_texts(*config)[key@] is None,
            Some(Some(t)) => table_texts(*config).contains_key(key@) && table_texts(*config)[key@] == Some(
                t@,
            ),
        },
{
    config.get(key).map(toml::Value::as_str)
}

/// Whether `c` lays text out: a space, a tab, a line feed or a carriage
/// return.
pub open spec fn is_layout(c: char) -> bool {
    c == ' ' || c == '\t' || c == '\n' || c == '\r'
}

/// `s` without its spaces, tabs and line breaks.
pub open spec fn without_layout(s: Seq<char>) -> Seq<char> {
    s.filter(|c: char| !is_layout(c))
}

/// Relies on `str::replace` with the pattern `[' ', '\t', '\n', '\r']` and
/// an empty replacement: every such character removed, the rest kept in
/// order.
#[verifier::external_body]
fn strip_layout(s: &str) -> (r: String)
    ensures
        r@ == without_layout(s@),
{
    s.replace(&[' ', '\t', '\n', '\r'][..], "")
}

/// The number written in hexadecimal in `s`, which may hold spaces, tabs and
/// line breaks anywhere; what is left once they are removed must be a
/// numeral in base 16, else the result is `InvalidArgument`.
pub fn parse_columnar_hex(s: &str) -> (r: Result<BigNat, AuthError>)
    ensures
        r is Ok == hex_accepts(without_layout(s@)),
        r is Ok ==> r->Ok_0@ == hex_value(hex_digits(without_layout(s@))),
        r is Err ==> r->Err_0 == AuthError::InvalidArgument,
{
    let digits = strip_layout(s);
    match BigNat::from_hex(digits.as_str()) {
        Some(n) => Ok(n),
        None => Err(AuthError::InvalidArgument),
    }
}

/// The number held by an entry of a parameters table: `entry` is `None`
/// where the key is missing and `Some(None)` where its value is not a
/// string; the string is read as by `parse_columnar_hex`.
pub fn big_unit_of_entry(entry: Option<Option<&str>>) -> (r: Result<BigNat, ParamError>)
    ensures
        entry is None ==> r == Err::<BigNat, ParamError>(ParamError::MissingKey),
        entry == Some::<Option<&str>>(None) ==> r == Err::<BigNat, ParamError>(ParamError::NotAString),
        entry matches Some(Some(s)) ==> {
            &&& r is Ok == hex_accepts(without_layout(s@))
            &&& r is Ok ==> r->Ok_0@ == hex_value(hex_digits(without_layout(s@)))
            &&& r is Err ==> r->Err_0 == ParamError::NotHex
        },
{
    match entry {
        None => Err(ParamError::MissingKey),
        Some(None) => Err(ParamError::NotAString),
        Some(Some(s)) => match parse_columnar_hex(s) {
            Ok(n) => Ok(n),
            Err(_) => Err(ParamError::NotHex),
        },
    }
}

/// The group parameter stored under `key` in `config`, as a hexadecimal
/// string that may hold spaces, tabs and line breaks.
pub fn get_big_unit(config: &toml::Table, key: &str) -> (r: Result<BigNat, ParamError>)
    ensures
        !table_texts(*config).contains_key(key@) ==> r == Err::<BigNat, ParamError>(ParamError::MissingKey),
        table_texts(*config).contains_key(key@) && table_texts(*config)[key@] is None ==> r == Err::<
            BigNat,
            ParamError,
        >(ParamError::NotAString),
        table_texts(*config).contains_key(key@) && table_texts(*config)[key@] is Some ==> {
            let t = table_texts(*config)[key@]->Some_0;
            &&& r is Ok == hex_accepts(without_layout(t))
            &&& r is Ok ==> r->Ok_0@ == hex_value(hex_digits(without_layout(t)))
            &&& r is Err ==> r->Err_0 == ParamError::NotHex
        },
{
    big_unit_of_entry(table_text(config, key))
}

/// The group with modulus `p`, order `q` and generator `g`, and with a
/// second generator `h = g^t mod p` for an exponent `t` drawn at random from
/// `1` to `q - 1` and then forgotten. A modulus or an order below two is
/// `InvalidArgument`.
pub fn group_from_parameters(p: BigNat, q: BigNat, g: BigNat) -> (r: Result<ChaumPedersen, AuthError>)
    ensures
        r is Ok <==> p@ > 1 && q@ > 1,
        r is Err ==> r->Err_0 == AuthError::InvalidArgument,
        r is Ok ==> {
            let cp = r->Ok_0;
            &&& cp.p@ == p@ && cp.q@ == q@ && cp.g@ == g@
            &&& exists|t: nat| 0 < t < q@ && cp.h@ == mod_pow(g@, t, p@)
        },
{
    let one = BigNat::from_u64(1);
    if one.ge(&p) || one.ge(&q) {
        return Err(AuthError::InvalidArgument);
    }
    let below = q.sub(&one);
    let t = below.sub(&BigNat::random_below(&below));
    let h = g.modpow(&t, &p);
    Ok(ChaumPedersen::new(p, q, g, h))
}

} // verus!
