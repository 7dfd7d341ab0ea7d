//! Name mangling for generated resource tables.
//!
//! The asset pipeline turns resource paths into Rust identifiers: a path
//! becomes a struct name by escaping every character that may not appear in
//! an identifier, and a resource or directory name becomes a field name by
//! mapping dashes to underscores.

use vstd::prelude::*;
use vstd::string::StringExecFns;

verus! {

broadcast use vstd::string::axiom_spec_iter;

/// Relies on std's `String::push`: appends exactly the one character.
#[verifier::external_body]
fn push_char(s: &mut String, c: char)
    ensures
        final(s)@ == old(s)@.push(c),
{
    s.push(c);
}

/// Whether `c` may stand unescaped in a mangled identifier: an ASCII letter
/// or digit.
pub open spec fn spec_safe_char(c: char) -> bool {
    ||| 'a' as u32 <= c as u32 <= 'z' as u32
    ||| 'A' as u32 <= c as u32 <= 'Z' as u32
    ||| '0' as u32 <= c as u32 <= '9' as u32
}

/// The character for the decimal digit `d`.
pub open spec fn spec_digit_char(d: nat) -> char {
    ((('0' as u32) + d) as u8) as char
}

/// The decimal digits of `n`, most significant first, as `u32::to_string`
/// writes them.
pub open spec fn spec_decimal(n: nat) -> Seq<char>
    decreases n,
{
    if n < 10 {
        seq![spec_digit_char(n)]
    } else {
        spec_decimal(n / 10).push(spec_digit_char(n % 10))
    }
}

/// How one character is written in a mangled identifier: safe characters
/// stand as they are, every other one as `_`, its code point in decimal,
/// and `x`.
pub open spec fn spec_mangled_char(c: char) -> Seq<char> {
    if spec_safe_char(c) {
        seq![c]
    } else {
        seq!['_'] + spec_decimal((c as u32) as nat) + seq!['x']
    }
}

/// The mangled form of a whole path: each character's form in order.
pub open spec fn spec_mangled(s: Seq<char>) -> Seq<char>
    decreases s.len(),
{
    if s.len() == 0 {
        Seq::empty()
    } else {
        spec_mangled(s.drop_last()) + spec_mangled_char(s.last())
    }
}

/// Appends the decimal rendering of `n`.
fn push_decimal(s: &mut String, n: u32)
    ensures
        final(s)@ == old(s)@ + spec_decimal(n as nat),
    decreases n,
{
    if n < 10 {
        let digit = n as u8 + 48;
        push_char(s, digit as char);
        proof {
            assert(old(s)@.push(spec_digit_char(n as nat)) =~= old(s)@ + spec_decimal(
                n as nat,
            ));
        }
    } else {
        push_decimal(s, n / 10);
        let digit = (n % 10) as u8 + 48;
        push_char(s, digit as char);
        proof {
            assert((old(s)@ + spec_decimal((n / 10) as nat)).push(
                spec_digit_char((n % 10) as nat),
            ) =~= old(s)@ + spec_decimal(n as nat));
        }
    }
}

/// Whether `c` may stand unescaped in a mangled identifier.
fn is_safe_char(c: char) -> (r: bool)
    ensures
        r == spec_safe_char(c),
{
    let code = c as u32;
    (97 <= code && code <= 122) || (65 <= code && code <= 90) || (48 <= code && code <= 57)
}

/// The struct name generated for an asset directory path: `AssetDir_`
/// followed by the path with every character outside ASCII letters and
/// digits escaped as `_<code point>x`.
pub fn mangle_path(path: &str) -> (r: String)
    ensures
        r@ == "AssetDir_"@ + spec_mangled(path@),
{
    let mut mangled = String::from_str("AssetDir_");
    for c in it: path.chars()
        invariant
            it.seq() == path@,
            mangled@ == "AssetDir_"@ + spec_mangled(path@.take(it.index() as int)),
    {
        if is_safe_char(c) {
            push_char(&mut mangled, c);
        } else {
            push_char(&mut mangled, '_');
            push_decimal(&mut mangled, c as u32);
            push_char(&mut mangled, 'x');
        }
        proof {
            let done = path@.take(it.index() as int + 1);
            assert(done.drop_last() =~= path@.take(it.index() as int));
            assert(done.last() == c);
            assert(mangled@ =~= "AssetDir_"@ + spec_mangled(done));
        }
    }
    proof {
        assert(path@.take(path@.len() as int) =~= path@);
    }
    mangled
}

/// Whether `c` is an ASCII lowercase letter.
pub open spec fn spec_lowercase(c: char) -> bool {
    'a' as u32 <= c as u32 <= 'z' as u32
}

/// The field name generated for a resource or directory name: the name with
/// dashes mapped to underscores.
///
/// Only names already fit for it may be passed: nonempty, starting with an
/// ASCII lowercase letter, every further character an ASCII lowercase letter
/// or a dash. Anything else — an underscore included — is a manifest error
/// the pipeline rejects outright.
pub fn make_name_safe(name: &str) -> (r: String)
    requires
        name@.len() > 0,
        spec_lowercase(name@[0]),
        forall|i: int| 0 <= i < name@.len() ==> spec_lowercase(#[trigger] name@[i]) || name@[i]
            == '-',
    ensures
        r@.len() == name@.len(),
        forall|i: int|
            0 <= i < name@.len() ==> r@[i] == (if name@[i] == '-' {
                '_'
            } else {
                name@[i]
            }),
{
    let mut safe_name = String::new();
    for c in it: name.chars()
        invariant
            it.seq() == name@,
            safe_name@.len() == it.index(),
            forall|i: int|
                0 <= i < it.index() ==> safe_name@[i] == (if name@[i] == '-' {
                    '_'
                } else {
                    name@[i]
                }),
    {
        if c == '-' {
            push_char(&mut safe_name, '_');
        } else {
            push_char(&mut safe_name, c);
        }
    }
    safe_name
}

} // verus!
