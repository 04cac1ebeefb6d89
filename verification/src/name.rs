//! File names: the split at the first dot, and the names that a rename gives.

use vstd::prelude::*;
use vstd::string::StrSliceExecFns;
use vstd::string::StringExecFns;

verus! {

/// The least index at or after `i` at which `s` holds a dot, or the length of
/// `s` where there is none.
pub open spec fn dot_from(s: Seq<char>, i: int) -> int
    decreases s.len() - i,
{
    if i < 0 || i >= s.len() {
        s.len() as int
    } else if s[i] == '.' {
        i
    } else {
        dot_from(s, i + 1)
    }
}

/// The index of the first dot of `s`, or its length where it has none.
pub open spec fn first_dot(s: Seq<char>) -> int {
    dot_from(s, 0)
}

/// The part of a file name before its first dot.
pub open spec fn base_of(s: Seq<char>) -> Seq<char> {
    s.subrange(0, first_dot(s))
}

/// The part of a file name from its first dot on, the dot included; empty
/// where the name has no dot.
pub open spec fn extension_of(s: Seq<char>) -> Seq<char> {
    s.subrange(first_dot(s), s.len() as int)
}

/// The character of one decimal digit.
pub open spec fn digit(d: nat) -> char {
    if d == 0 {
        '0'
    } else if d == 1 {
        '1'
    } else if d == 2 {
        '2'
    } else if d == 3 {
        '3'
    } else if d == 4 {
        '4'
    } else if d == 5 {
        '5'
    } else if d == 6 {
        '6'
    } else if d == 7 {
        '7'
    } else if d == 8 {
        '8'
    } else {
        '9'
    }
}

/// The decimal numeral of `n`, without leading zeros.
pub open spec fn decimal(n: nat) -> Seq<char>
    decreases n,
{
    if n < 10 {
        seq![digit(n)]
    } else {
        decimal(n / 10).push(digit(n % 10))
    }
}

/// The name that the file at position `index` of the sorted inventory gets:
/// prefix, number, extension.
pub open spec fn numbered(prefix: Seq<char>, index: nat, filename: Seq<char>) -> Seq<char> {
    prefix + decimal(index) + extension_of(filename)
}

/// The name that a file gets from its date and time: prefix, a space, the
/// date and time, extension.
pub open spec fn dated(prefix: Seq<char>, stamp: Seq<char>, filename: Seq<char>) -> Seq<char> {
    prefix + seq![' '] + stamp + extension_of(filename)
}

/// The path of `name` inside `directory`.
pub open spec fn joined(directory: Seq<char>, name: Seq<char>) -> Seq<char> {
    directory + seq!['/'] + name
}

/// The line that announces one rename: source, an arrow, destination.
pub open spec fn announced(source: Seq<char>, destination: Seq<char>) -> Seq<char> {
    source + seq![' ', '-', '>', ' '] + destination
}

/// `dot_from` stays within the name, passes no dot, and stops on one.
pub proof fn lemma_dot_from(s: Seq<char>, i: int)
    requires
        0 <= i <= s.len(),
    ensures
        i <= dot_from(s, i) <= s.len(),
        forall|j: int| i <= j < dot_from(s, i) ==> s[j] != '.',
        dot_from(s, i) < s.len() ==> s[dot_from(s, i)] == '.',
    decreases s.len() - i,
{
    if i < s.len() && s[i] != '.' {
        lemma_dot_from(s, i + 1);
    }
}

/// Base and extension together are the name; the extension is empty exactly
/// when the name has no dot, and otherwise begins with the first dot of the
/// name and runs to its end.
pub proof fn lemma_split_joins(s: Seq<char>)
    ensures
        base_of(s) + extension_of(s) == s,
        !base_of(s).contains('.'),
        s.contains('.') <==> extension_of(s).len() > 0,
        s.contains('.') ==> extension_of(s)[0] == '.',
        forall|k: int|
            0 <= k < s.len() && s[k] == '.' && (forall|j: int| 0 <= j < k ==> s[j] != '.')
                ==> extension_of(s) == s.subrange(k, s.len() as int),
{
    lemma_dot_from(s, 0);
    let d = first_dot(s);
    assert(base_of(s) + extension_of(s) =~= s);
    if s.contains('.') {
        let k = choose|k: int| 0 <= k < s.len() && s[k] == '.';
        assert(d <= k);
    }
    if d < s.len() {
        assert(s[d] == '.');
    }
    assert forall|k: int|
        0 <= k < s.len() && s[k] == '.' && (forall|j: int| 0 <= j < k ==> s[j] != '.')
        implies extension_of(s) == s.subrange(k, s.len() as int) by {
        assert(d <= k);
        if d < k {
            assert(s[d] != '.');
        }
    }
}

/// A new name ends in the extension of the old one, from its first dot on
/// and unchanged; where the old name has no dot, the new name ends with
/// the number, or with the date and time, and gets no dot of its own.
pub proof fn lemma_extension_kept(
    prefix: Seq<char>,
    index: nat,
    stamp: Seq<char>,
    filename: Seq<char>,
)
    ensures
        numbered(prefix, index, filename).subrange(
            (prefix.len() + decimal(index).len()) as int,
            numbered(prefix, index, filename).len() as int,
        ) == extension_of(filename),
        dated(prefix, stamp, filename).subrange(
            (prefix.len() + 1 + stamp.len()) as int,
            dated(prefix, stamp, filename).len() as int,
        ) == extension_of(filename),
        !filename.contains('.') ==> numbered(prefix, index, filename) == prefix + decimal(index),
        !filename.contains('.') ==> dated(prefix, stamp, filename) == prefix + seq![' '] + stamp,
{
    lemma_split_joins(filename);
    let e = extension_of(filename);
    let a = numbered(prefix, index, filename);
    let b = dated(prefix, stamp, filename);
    assert(a.subrange((prefix.len() + decimal(index).len()) as int, a.len() as int) =~= e);
    assert(b.subrange((prefix.len() + 1 + stamp.len()) as int, b.len() as int) =~= e);
    if !filename.contains('.') {
        assert(e =~= Seq::<char>::empty());
        assert(a =~= prefix + decimal(index));
        assert(b =~= prefix + seq![' '] + stamp);
    }
}

/// A numeral has at least one digit, and two or more from ten on.
pub proof fn lemma_decimal_len(n: nat)
    ensures
        decimal(n).len() >= 1,
        n >= 10 ==> decimal(n).len() >= 2,
    decreases n,
{
    if n >= 10 {
        lemma_decimal_len(n / 10);
    }
}

/// Different numbers have different numerals.
pub proof fn lemma_decimal_injective(a: nat, b: nat)
    requires
        decimal(a) == decimal(b),
    ensures
        a == b,
    decreases a,
{
    lemma_decimal_len(a);
    lemma_decimal_len(b);
    if a < 10 {
        assert(decimal(a)[0] == digit(a));
        if b < 10 {
            assert(decimal(b)[0] == digit(b));
        }
    } else if b >= 10 {
        assert(decimal(a).drop_last() =~= decimal(a / 10));
        assert(decimal(b).drop_last() =~= decimal(b / 10));
        assert(decimal(a).last() == digit(a % 10));
        assert(decimal(b).last() == digit(b % 10));
        lemma_decimal_injective(a / 10, b / 10);
    }
}

/// Two files with the same extension get different numbered names at
/// different positions.
pub proof fn lemma_numbered_distinct(
    prefix: Seq<char>,
    i: nat,
    j: nat,
    first: Seq<char>,
    second: Seq<char>,
)
    requires
        extension_of(first) == extension_of(second),
        numbered(prefix, i, first) == numbered(prefix, j, second),
    ensures
        i == j,
{
    let x = decimal(i);
    let y = decimal(j);
    let a = numbered(prefix, i, first);
    let b = numbered(prefix, j, second);
    assert(a.len() == prefix.len() + x.len() + extension_of(first).len());
    assert(b.len() == prefix.len() + y.len() + extension_of(second).len());
    assert forall|k: int| 0 <= k < x.len() implies x[k] == y[k] by {
        assert(a[prefix.len() + k] == x[k]);
        assert(b[prefix.len() + k] == y[k]);
    }
    assert(x =~= y);
    lemma_decimal_injective(i, j);
}

/// Splits a file name at its first dot into base and extension. The
/// extension keeps its dot; a name without a dot has an empty extension.
pub fn split_name(filename: &str) -> (parts: (String, String))
    ensures
        parts.0@ == base_of(filename@),
        parts.1@ == extension_of(filename@),
{
    let n = filename.unicode_len();
    let mut i: usize = 0;
    while i < n && filename.get_char(i) != '.'
        invariant
            i <= n,
            n == filename@.len(),
            dot_from(filename@, 0) == dot_from(filename@, i as int),
        decreases n - i,
    {
        i = i + 1;
    }
    let base = String::from_str(filename.substring_char(0, i));
    let extension = String::from_str(filename.substring_char(i, n));
    (base, extension)
}

/// The text of one decimal digit.
fn digit_text(d: usize) -> (text: &'static str)
    requires
        d < 10,
    ensures
        text@ == seq![digit(d as nat)],
{
    proof {
        reveal_strlit("0");
        reveal_strlit("1");
        reveal_strlit("2");
        reveal_strlit("3");
        reveal_strlit("4");
        reveal_strlit("5");
        reveal_strlit("6");
        reveal_strlit("7");
        reveal_strlit("8");
        reveal_strlit("9");
    }
    let text = if d == 0 {
        "0"
    } else if d == 1 {
        "1"
    } else if d == 2 {
        "2"
    } else if d == 3 {
        "3"
    } else if d == 4 {
        "4"
    } else if d == 5 {
        "5"
    } else if d == 6 {
        "6"
    } else if d == 7 {
        "7"
    } else if d == 8 {
        "8"
    } else {
        "9"
    };
    assert(text@ =~= seq![digit(d as nat)]);
    text
}

/// Writes `n` in decimal, without leading zeros.
pub fn decimal_text(n: usize) -> (text: String)
    ensures
        text@ == decimal(n as nat),
    decreases n,
{
    if n < 10 {
        String::from_str(digit_text(n))
    } else {
        let mut text = decimal_text(n / 10);
        text.append(digit_text(n % 10));
        assert(text@ =~= decimal(n as nat));
        text
    }
}

/// The name of the file at position `index` of the sorted inventory: the
/// prefix, the index in decimal, and the extension of the old name.
pub fn numbered_name(prefix: &str, index: usize, filename: &str) -> (name: String)
    ensures
        name@ == numbered(prefix@, index as nat, filename@),
{
    let parts = split_name(filename);
    let mut name = String::from_str(prefix);
    let number = decimal_text(index);
    name.append(number.as_str());
    name.append(parts.1.as_str());
    name
}

/// The name of a file from the text of its date and time: the prefix, a
/// space, that text, and the extension of the old name.
pub fn dated_name(prefix: &str, stamp: &str, filename: &str) -> (name: String)
    ensures
        name@ == dated(prefix@, stamp@, filename@),
{
    proof {
        reveal_strlit(" ");
    }
    let parts = split_name(filename);
    let mut name = String::from_str(prefix);
    name.append(" ");
    name.append(stamp);
    name.append(parts.1.as_str());
    assert(" "@ =~= seq![' ']);
    name
}

/// The path of the entry `name` of `directory`: the two joined by a slash.
pub fn path_in(directory: &str, name: &str) -> (path: String)
    ensures
        path@ == joined(directory@, name@),
{
    proof {
        reveal_strlit("/");
    }
    let mut path = String::from_str(directory);
    path.append("/");
    path.append(name);
    assert("/"@ =~= seq!['/']);
    path
}

/// The line that announces a rename from `source` to `destination`.
pub fn announce(source: &str, destination: &str) -> (line: String)
    ensures
        line@ == announced(source@, destination@),
{
    proof {
        reveal_strlit(" -> ");
    }
    let mut line = String::from_str(source);
    line.append(" -> ");
    line.append(destination);
    assert(" -> "@ =~= seq![' ', '-', '>', ' ']);
    line
}

} // verus!
