//! String helpers shared by the other modules: case folding, field paths and
//! decimal numbers, each described by a function on sequences of characters.

use vstd::prelude::*;
use vstd::string::*;

verus! {

/// The lower-case form of a string: what `str::to_lowercase` of the standard
/// library returns for it. The mapping follows the Unicode tables of the
/// standard library and is not written out here.
pub uninterp spec fn lowercase(s: Seq<char>) -> Seq<char>;

/// Calls `str::to_lowercase`. Nothing is proved of the result: the contract
/// only gives it the name `lowercase`, a function of the characters alone.
#[verifier::external_body]
pub(crate) fn to_lowercase(s: &str) -> (result: String)
    ensures
        result@ == lowercase(s@),
{
    s.to_lowercase()
}

/// Whether two names agree when the case of their letters is left aside.
pub fn same_name(first: &str, second: &str) -> (same: bool)
    ensures
        same == (lowercase(first@) == lowercase(second@)),
{
    let lowered_first: String = to_lowercase(first);
    let lowered_second: String = to_lowercase(second);
    lowered_first == lowered_second
}

/// The last position below `n` at which `s` holds `x`.
pub open spec fn last_index<T>(s: Seq<T>, x: T, n: nat) -> Option<int>
    decreases n,
{
    if n == 0 || n > s.len() {
        None
    } else if s[n - 1] == x {
        Some(n - 1)
    } else {
        last_index(s, x, (n - 1) as nat)
    }
}

/// What a search with `last_index` found: the position holds `x`, and no later
/// position below `n` does; or no position below `n` holds `x`.
pub proof fn lemma_last_index<T>(s: Seq<T>, x: T, n: nat)
    requires
        n <= s.len(),
    ensures
        match last_index(s, x, n) {
            Some(i) => 0 <= i < n && s[i] == x && forall|j: int| i < j < n ==> s[j] != x,
            None => forall|j: int| 0 <= j < n ==> s[j] != x,
        },
    decreases n,
{
    if n > 0 && s[n - 1] != x {
        lemma_last_index(s, x, (n - 1) as nat);
    }
}

/// `s` without the dots it starts with.
pub open spec fn without_leading_dots(s: Seq<char>) -> Seq<char>
    decreases s.len(),
{
    if s.len() > 0 && s[0] == '.' {
        without_leading_dots(s.drop_first())
    } else {
        s
    }
}

/// Strips every leading `.` from `s`.
pub fn trim_leading_dots(s: &str) -> (result: &str)
    ensures
        result@ == without_leading_dots(s@),
{
    let n: usize = s.unicode_len();
    let mut i: usize = 0;
    assert(s@.skip(0) =~= s@);
    while i < n && s.get_char(i) == '.'
        invariant
            i <= n,
            n == s@.len(),
            without_leading_dots(s@) == without_leading_dots(s@.skip(i as int)),
        decreases n - i,
    {
        assert(s@.skip(i as int).drop_first() =~= s@.skip(i + 1));
        i += 1;
    }
    assert(s@.skip(i as int) =~= s@.subrange(i as int, n as int));
    s.substring_char(i, n)
}

/// The path of the member `key` of the value at `parent`: the key alone at the
/// root, else the two joined by a dot.
pub open spec fn child_path(parent: Seq<char>, key: Seq<char>) -> Seq<char> {
    if parent.len() == 0 {
        key
    } else {
        parent + seq!['.'] + key
    }
}

/// The path of element `index` of the array at `path`: `path[index]`.
pub open spec fn element_path(path: Seq<char>, index: nat) -> Seq<char> {
    path + seq!['['] + decimal(index) + seq![']']
}

/// The character of a decimal digit.
pub open spec fn digit_char(d: nat) -> char {
    if d == 0 {
        '0'
    } else if d == 1 {
        '1'
    } else if d == 2 {
        '2'
    } else if d == 3 {
        '3'
    } else if d == 4 {
        '4'
    } else if d == 5 {
        '5'
    } else if d == 6 {
        '6'
    } else if d == 7 {
        '7'
    } else if d == 8 {
        '8'
    } else {
        '9'
    }
}

/// `n` in decimal, without leading zeros.
pub open spec fn decimal(n: nat) -> Seq<char>
    decreases n,
{
    if n < 10 {
        seq![digit_char(n)]
    } else {
        decimal(n / 10).push(digit_char(n % 10))
    }
}

fn digit_text(d: usize) -> (result: &'static str)
    requires
        d < 10,
    ensures
        result@ == seq![digit_char(d as nat)],
{
    proof {
        reveal_strlit("0");
        reveal_strlit("1");
        reveal_strlit("2");
        reveal_strlit("3");
        reveal_strlit("4");
        reveal_strlit("5");
        reveal_strlit("6");
        reveal_strlit("7");
        reveal_strlit("8");
        reveal_strlit("9");
    }
    let text: &'static str = if d == 0 {
        "0"
    } else if d == 1 {
        "1"
    } else if d == 2 {
        "2"
    } else if d == 3 {
        "3"
    } else if d == 4 {
        "4"
    } else if d == 5 {
        "5"
    } else if d == 6 {
        "6"
    } else if d == 7 {
        "7"
    } else if d == 8 {
        "8"
    } else {
        "9"
    };
    assert(text@ =~= seq![digit_char(d as nat)]);
    text
}

/// Writes `n` in decimal.
pub fn decimal_text(n: usize) -> (result: String)
    ensures
        result@ == decimal(n as nat),
{
    let mut rest: usize = n / 10;
    let mut text: String = String::from_str(digit_text(n % 10));
    while rest > 0
        invariant
            decimal(n as nat) == if rest > 0 {
                decimal(rest as nat) + text@
            } else {
                text@
            },
        decreases rest,
    {
        let digit: &'static str = digit_text(rest % 10);
        let ghost before = text@;
        text = String::from_str(digit).concat(text.as_str());
        proof {
            let d = seq![digit_char((rest % 10) as nat)];
            assert(text@ == d + before);
            if rest >= 10 {
                assert(decimal(rest as nat) + before =~= decimal((rest / 10) as nat) + (d
                    + before));
            } else {
                assert(decimal(rest as nat) + before =~= d + before);
            }
        }
        rest = rest / 10;
    }
    text
}

/// Builds the path of the member `key` below `parent`.
pub fn join_path(parent: &str, key: &str) -> (result: String)
    ensures
        result@ == child_path(parent@, key@),
{
    if parent.is_empty() {
        String::from_str(key)
    } else {
        proof {
            reveal_strlit(".");
        }
        let mut path: String = String::from_str(parent);
        path.append(".");
        path.append(key);
        assert(path@ =~= parent@ + seq!['.'] + key@);
        path
    }
}

/// Builds the path of element `index` of the array at `path`.
pub fn index_path(path: &str, index: usize) -> (result: String)
    ensures
        result@ == element_path(path@, index as nat),
{
    proof {
        reveal_strlit("[");
        reveal_strlit("]");
    }
    let digits: String = decimal_text(index);
    let mut text: String = String::from_str(path);
    text.append("[");
    text.append(digits.as_str());
    text.append("]");
    assert(text@ =~= path@ + seq!['['] + decimal(index as nat) + seq![']']);
    text
}

} // verus!
