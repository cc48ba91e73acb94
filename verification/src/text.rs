//! Author identities and the author filter.

use vstd::prelude::*;
use vstd::std_specs::iter::IteratorSpec;
use vstd::string::StringExecFns;

verus! {

/// What `str::to_lowercase` returns for a text: its Unicode lowercase form.
pub uninterp spec fn lowercased(text: Seq<char>) -> Seq<char>;

/// `needle` occurs in `hay` as a run of consecutive characters.
pub open spec fn occurs_in(needle: Seq<char>, hay: Seq<char>) -> bool {
    exists|i: int|
        0 <= i && i + needle.len() <= hay.len() && #[trigger] hay.subrange(
            i,
            i + needle.len(),
        ) == needle
}

/// Calls `str::to_lowercase`, which maps each character to its lowercase
/// form as Unicode defines it. The contract only names the result.
#[verifier::external_body]
fn lowercase(text: &str) -> (lower: String)
    ensures
        lower@ == lowercased(text@),
{
    text.to_lowercase()
}

/// Collects the characters of a text.
pub(crate) fn chars_of(text: &str) -> (chars: Vec<char>)
    ensures
        chars@ == text@,
{
    let mut chars: Vec<char> = Vec::new();
    let mut rest = text.chars();
    loop
        invariant_except_break
            rest.obeys_prophetic_iter_laws(),
            rest.decrease() is Some,
            chars@ + rest.remaining() == text@,
        ensures
            chars@ == text@,
        decreases rest.decrease()->0,
    {
        let ghost before = chars@;
        let ghost left = rest.remaining();
        match rest.next() {
            Some(c) => {
                chars.push(c);
                assert(chars@ + rest.remaining() =~= before + left);
            },
            None => {
                assert(before + left =~= before);
                break ;
            },
        }
    }
    chars
}

/// Calls `String::push`, which appends a character to a text.
#[verifier::external_body]
fn push_char(text: &mut String, c: char)
    ensures
        final(text)@ == old(text)@.push(c),
{
    text.push(c);
}

/// Makes a text of the characters from `from` up to `to`.
pub(crate) fn text_of(chars: &Vec<char>, from: usize, to: usize) -> (text: String)
    requires
        from <= to <= chars@.len(),
    ensures
        text@ == chars@.subrange(from as int, to as int),
{
    let mut text = String::new();
    let mut i = from;
    while i < to
        invariant
            from <= i <= to <= chars@.len(),
            text@ == chars@.subrange(from as int, i as int),
        decreases to - i,
    {
        push_char(&mut text, chars[i]);
        i = i + 1;
        assert(text@ =~= chars@.subrange(from as int, i as int));
    }
    text
}

/// Tells whether `needle` occurs in `hay`.
fn contains_text(hay: &str, needle: &str) -> (found: bool)
    ensures
        found == occurs_in(needle@, hay@),
{
    let h = chars_of(hay);
    let n = chars_of(needle);
    if n.len() > h.len() {
        assert forall|k: int| 0 <= k && k + needle@.len() <= hay@.len() implies #[trigger] hay@.subrange(
            k,
            k + needle@.len(),
        ) != needle@ by {}
        return false;
    }
    let last = h.len() - n.len();
    let mut i: usize = 0;
    loop
        invariant
            h@ == hay@,
            n@ == needle@,
            n@.len() <= h@.len() <= usize::MAX,
            last == h@.len() - n@.len(),
            i <= last,
            forall|k: int| 0 <= k < i ==> #[trigger] h@.subrange(k, k + n@.len()) != n@,
        decreases last - i,
    {
        let mut j: usize = 0;
        while j < n.len() && h[i + j] == n[j]
            invariant
                n@.len() <= h@.len() <= usize::MAX,
                i <= h@.len() - n@.len(),
                j <= n@.len(),
                forall|k: int| 0 <= k < j ==> h@[i + k] == n@[k],
            decreases n@.len() - j,
        {
            j = j + 1;
        }
        if j == n.len() {
            assert(h@.subrange(i as int, i + n@.len()) =~= n@);
            return true;
        }
        assert(h@.subrange(i as int, i + n@.len())[j as int] != n@[j as int]);
        if i == last {
            return false;
        }
        i = i + 1;
    }
}

/// The key under which an author is grouped: `name <email>`.
pub open spec fn identity(name: Seq<char>, email: Seq<char>) -> Seq<char> {
    name + seq![' ', '<'] + email + seq!['>']
}

/// Builds the grouping key of an author, in the case recorded in the commit.
pub fn author_key(name: &str, email: &str) -> (key: String)
    ensures
        key@ == identity(name@, email@),
{
    proof {
        reveal_strlit(" <");
        reveal_strlit(">");
    }
    let mut key = String::from_str(name);
    key.append(" <");
    key.append(email);
    key.append(">");
    assert(" <"@ =~= seq![' ', '<']);
    assert(">"@ =~= seq!['>']);
    key
}

/// Whether an author passes a filter: with no filter every author does;
/// with one, the pattern must occur in the name or in the email, letter case
/// aside.
pub open spec fn passes(name: Seq<char>, email: Seq<char>, filter: Option<Seq<char>>) -> bool {
    match filter {
        Some(pattern) => occurs_in(lowercased(pattern), lowercased(name)) || occurs_in(
            lowercased(pattern),
            lowercased(email),
        ),
        None => true,
    }
}

/// As `passes`, for a pattern that is taken as it stands.
pub open spec fn passes_lowered(name: Seq<char>, email: Seq<char>, filter: Option<Seq<char>>) -> bool {
    match filter {
        Some(pattern) => occurs_in(pattern, lowercased(name)) || occurs_in(pattern, lowercased(email)),
        None => true,
    }
}

/// The filter as a value.
pub open spec fn filter_text(filter: &Option<String>) -> Option<Seq<char>> {
    match filter {
        Some(pattern) => Some(pattern@),
        None => None,
    }
}

/// Matches an author against an optional filter, case-insensitively.
pub fn author_matches(name: &str, email: &str, filter: &Option<String>) -> (ok: bool)
    ensures
        ok == passes(name@, email@, filter_text(filter)),
{
    match filter {
        Some(pattern) => {
            let pat = lowercase(pattern.as_str());
            let lower_name = lowercase(name);
            let lower_email = lowercase(email);
            contains_text(lower_name.as_str(), pat.as_str()) || contains_text(
                lower_email.as_str(),
                pat.as_str(),
            )
        },
        None => true,
    }
}

/// Matches an author against a filter whose pattern is lowercase already.
pub fn author_matches_optimized(name: &str, email: &str, filter: &Option<String>) -> (ok: bool)
    ensures
        ok == passes_lowered(name@, email@, filter_text(filter)),
{
    match filter {
        Some(pattern) => {
            let lower_name = lowercase(name);
            let lower_email = lowercase(email);
            contains_text(lower_name.as_str(), pattern.as_str()) || contains_text(
                lower_email.as_str(),
                pattern.as_str(),
            )
        },
        None => true,
    }
}

/// As `author_matches_optimized`, leaving the lowercase name and email in
/// the two buffers when there is a filter.
pub fn author_matches_with_buffer(
    name: &str,
    email: &str,
    filter: &Option<String>,
    name_buffer: &mut String,
    email_buffer: &mut String,
) -> (ok: bool)
    ensures
        ok == passes_lowered(name@, email@, filter_text(filter)),
        filter is Some ==> final(name_buffer)@ == lowercased(name@) && final(email_buffer)@
            == lowercased(email@),
        filter is None ==> *final(name_buffer) == *old(name_buffer) && *final(email_buffer) == *old(
            email_buffer,
        ),
{
    match filter {
        Some(pattern) => {
            *name_buffer = lowercase(name);
            *email_buffer = lowercase(email);
            contains_text(name_buffer.as_str(), pattern.as_str()) || contains_text(
                email_buffer.as_str(),
                pattern.as_str(),
            )
        },
        None => true,
    }
}

} // verus!
