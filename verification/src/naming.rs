use vstd::prelude::*;
use vstd::string::StringExecFns;

verus! {

/// The ASCII upper-case form of `c`: `a` to `z` become `A` to `Z`, every
/// other character stays.
pub open spec fn ascii_upper(c: char) -> char {
    if 'a' <= c <= 'z' {
        ((c as u8) - 32) as char
    } else {
        c
    }
}

/// The ASCII lower-case form of `c`: `A` to `Z` become `a` to `z`, every
/// other character stays.
pub open spec fn ascii_lower(c: char) -> char {
    if 'A' <= c <= 'Z' {
        ((c as u8) + 32) as char
    } else {
        c
    }
}

/// Whether the character at `i` starts a word: it is the first of the name
/// or follows an underscore.
pub open spec fn starts_word(name: Seq<char>, i: int) -> bool {
    i == 0 || name[i - 1] == '_'
}

/// The camel-case form of the first `n` characters of `name`: underscores
/// vanish, a character that starts a word is upper-cased, any other is
/// lower-cased.
pub open spec fn camel_case_prefix(name: Seq<char>, n: nat) -> Seq<char>
    decreases n,
{
    if n == 0 {
        Seq::empty()
    } else {
        let head = camel_case_prefix(name, (n - 1) as nat);
        let c = name[n - 1];
        if c == '_' {
            head
        } else if starts_word(name, n - 1) {
            head.push(ascii_upper(c))
        } else {
            head.push(ascii_lower(c))
        }
    }
}

/// The camel-case form of `name`.
pub open spec fn camel_case(name: Seq<char>) -> Seq<char> {
    camel_case_prefix(name, name.len())
}

fn to_ascii_uppercase(c: char) -> (r: char)
    ensures
        r == ascii_upper(c),
{
    if 'a' <= c && c <= 'z' {
        ((c as u8) - 32) as char
    } else {
        c
    }
}

fn to_ascii_lowercase(c: char) -> (r: char)
    ensures
        r == ascii_lower(c),
{
    if 'A' <= c && c <= 'Z' {
        ((c as u8) + 32) as char
    } else {
        c
    }
}

/// Specifies `String::push`.
///
/// Trusted: the string afterwards is the string before with `c` at its end,
/// which is what the documentation of `push` says.
pub assume_specification[ String::push ](string: &mut String, c: char)
    ensures
        final(string)@ == old(string)@.push(c),
;

/// Turns a snake-case name into camel case: `my_system` becomes `MySystem`.
pub fn string_to_camel_case(string: String) -> (result: String)
    ensures
        result@ == camel_case(string@),
{
    let mut result = String::new();
    let mut first = true;
    for c in iter: string.as_str().chars()
        invariant
            iter.seq() == string@,
            first == starts_word(string@, iter.index() as int),
            result@ == camel_case_prefix(string@, iter.index() as nat),
    {
        if c == '_' {
            first = true;
        } else {
            if first {
                result.push(to_ascii_uppercase(c));
                first = false;
            } else {
                result.push(to_ascii_lowercase(c));
            }
        }
    }
    result
}

/// The name of the struct that stands for the system function `name`:
/// `System` followed by the camel-case form of `name`.
pub fn system_struct_name(name: String) -> (result: String)
    ensures
        result@ == "System"@ + camel_case(name@),
{
    let mut result = String::from_str("System");
    let camel = string_to_camel_case(name);
    result.append(camel.as_str());
    result
}

} // verus!
