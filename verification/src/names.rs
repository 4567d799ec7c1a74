//! The names that test files give to test cases and databases.

use vstd::prelude::*;

verus! {

/// The character that stands for `c` in the name of a test case or a database.
pub open spec fn sanitized_char(c: char) -> char {
    if c == ' ' || c == '.' || c == '-' || c == '/' {
        '_'
    } else {
        c
    }
}

/// The name that the file name `s` gives.
pub open spec fn sanitized(s: Seq<char>) -> Seq<char> {
    s.map_values(|c: char| sanitized_char(c))
}

/// Replaces spaces, dots, dashes and slashes by underscores.
pub fn sanitize(s: &str) -> (r: String)
    ensures
        r@ == sanitized(s@),
{
    let mut r = String::new();
    for c in it: s.chars()
        invariant
            it.seq() == s@,
            r@ == sanitized(s@.take(it.index() as int)),
    {
        if c == ' ' || c == '.' || c == '-' || c == '/' {
            r.push('_');
        } else {
            r.push(c);
        }
        assert(r@ =~= sanitized(s@.take(it.index() + 1)));
    }
    assert(s@.take(s@.len() as int) == s@);
    r
}

/// A name holds none of the replaced characters, and making a name of it again changes
/// nothing.
pub proof fn law_names_are_clean(s: Seq<char>)
    ensures
        sanitized(s).len() == s.len(),
        forall|i: int|
            0 <= i < s.len() ==> ({
                let c = #[trigger] sanitized(s)[i];
                c != ' ' && c != '.' && c != '-' && c != '/'
            }),
        sanitized(sanitized(s)) == sanitized(s),
{
    assert(sanitized(sanitized(s)) =~= sanitized(s));
}

/// Spaces, dots, dashes and slashes become underscores; every other character stays as it is,
/// where it is.
pub proof fn law_only_separators_are_replaced(s: Seq<char>, i: int)
    requires
        0 <= i < s.len(),
    ensures
        sanitized(s)[i] == if seq![' ', '.', '-', '/'].contains(s[i]) {
            '_'
        } else {
            s[i]
        },
        sanitized(s).len() == s.len(),
{
    let marks = seq![' ', '.', '-', '/'];
    assert(marks[0] == ' ' && marks[1] == '.' && marks[2] == '-' && marks[3] == '/');
}

}
