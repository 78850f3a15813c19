//! Small operations on route texts.
use vstd::prelude::*;
use vstd::string::StrSliceExecFns;

verus! {

/// The text without the slashes that end it.
pub open spec fn spec_trim_trailing_slashes(s: Seq<char>) -> Seq<char>
    decreases s.len(),
{
    if s.len() > 0 && s.last() == '/' {
        spec_trim_trailing_slashes(s.drop_last())
    } else {
        s
    }
}

/// A pattern placed behind a prefix; an empty prefix leaves it as it is.
pub open spec fn spec_join_prefix(prefix: Seq<char>, pattern: Seq<char>) -> Seq<char> {
    if prefix.len() == 0 {
        pattern
    } else {
        prefix + pattern
    }
}

/// Removes the slashes that end `s`.
pub fn trim_trailing_slashes(s: &str) -> (out: String)
    ensures
        out@ == spec_trim_trailing_slashes(s@),
{
    let mut n = s.unicode_len();
    assert(s@.subrange(0, n as int) =~= s@);
    while n > 0 && s.get_char(n - 1) == '/'
        invariant
            n <= s@.len(),
            spec_trim_trailing_slashes(s@) == spec_trim_trailing_slashes(s@.subrange(0, n as int)),
        decreases n,
    {
        assert(s@.subrange(0, n as int).drop_last() =~= s@.subrange(0, n - 1));
        n = n - 1;
    }
    String::from_str(s.substring_char(0, n))
}

/// Places `pattern` behind `prefix`, or returns it as it is when the prefix
/// is empty.
pub fn join_prefix(prefix: &String, pattern: &String) -> (out: String)
    ensures
        out@ == spec_join_prefix(prefix@, pattern@),
{
    if prefix.as_str().is_empty() {
        pattern.clone()
    } else {
        prefix.clone().concat(pattern.as_str())
    }
}

/// Trimming trailing slashes twice trims nothing more, and the result never
/// ends with a slash.
pub proof fn lemma_trim_trailing_slashes(s: Seq<char>)
    ensures
        spec_trim_trailing_slashes(spec_trim_trailing_slashes(s)) == spec_trim_trailing_slashes(s),
        spec_trim_trailing_slashes(s).len() == 0 || spec_trim_trailing_slashes(s).last() != '/',
        spec_trim_trailing_slashes(s).is_prefix_of(s),
    decreases s.len(),
{
    if s.len() > 0 && s.last() == '/' {
        lemma_trim_trailing_slashes(s.drop_last());
    }
}

} // verus!
