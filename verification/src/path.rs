//! Route paths and the text operations the route table performs on them.

use vstd::prelude::*;
use vstd::string::*;

verus! {

/// A route path is a non-empty text that starts with `/`.
pub open spec fn is_valid_path(path: Seq<char>) -> bool {
    path.len() > 0 && path[0] == '/'
}

/// The number of characters of `text` that are left once every trailing `/`
/// is taken off.
pub open spec fn trimmed_len(text: Seq<char>) -> nat
    decreases text.len(),
{
    if text.len() > 0 && text.last() == '/' {
        trimmed_len(text.drop_last())
    } else {
        text.len()
    }
}

/// `text` without its trailing `/` characters.
pub open spec fn trim_trailing_slashes(text: Seq<char>) -> Seq<char> {
    text.take(trimmed_len(text) as int)
}

/// What a nesting prefix contributes to the paths below it: the prefix
/// without trailing slashes, so that `/` contributes nothing.
pub open spec fn normalized_prefix(prefix: Seq<char>) -> Seq<char> {
    trim_trailing_slashes(prefix)
}

/// A prefix can be nested under when the paths it produces are valid:
/// it contributes nothing, or what it contributes starts with `/`.
pub open spec fn is_valid_prefix(prefix: Seq<char>) -> bool {
    normalized_prefix(prefix).len() == 0 || normalized_prefix(prefix)[0] == '/'
}

/// Whether `text` ends with `/`.
pub open spec fn ends_with_slash(text: Seq<char>) -> bool {
    text.len() > 0 && text.last() == '/'
}

/// The path at which the fallback page of `scope` is placed: the scope,
/// closed by a `/` if it does not end with one, followed by the page name.
pub open spec fn fallback_path(scope: Seq<char>, page_name: Seq<char>) -> Seq<char> {
    if ends_with_slash(scope) {
        scope + page_name
    } else {
        scope + seq!['/'] + page_name
    }
}

/// The name under which the page of `path` is filed, before an extension is
/// given to it: the path without its leading `/`, or `index` where nothing
/// is left.
pub open spec fn page_stem(path: Seq<char>) -> Seq<char> {
    if path.len() <= 1 {
        "index"@
    } else {
        path.skip(1)
    }
}

/// Trimming takes off the trailing slashes and nothing else: what is left
/// does not end with `/`, and every character taken off is a `/`.
pub proof fn lemma_trimming_takes_trailing_slashes(text: Seq<char>)
    ensures
        trimmed_len(text) <= text.len(),
        !ends_with_slash(trim_trailing_slashes(text)),
        forall|i: int| trimmed_len(text) <= i < text.len() ==> text[i] == '/',
    decreases text.len(),
{
    if text.len() > 0 && text.last() == '/' {
        let shorter = text.drop_last();
        lemma_trimming_takes_trailing_slashes(shorter);
        assert(trim_trailing_slashes(text) =~= trim_trailing_slashes(shorter));
        assert forall|i: int| trimmed_len(text) <= i < text.len() implies text[i] == '/' by {
            if i < shorter.len() {
                assert(text[i] == shorter[i]);
            }
        }
    } else {
        assert(trim_trailing_slashes(text) =~= text);
    }
}

/// The prefix `/` contributes nothing to the paths below it.
pub proof fn lemma_root_prefix_is_empty()
    ensures
        normalized_prefix(seq!['/']) == Seq::<char>::empty(),
        is_valid_prefix(seq!['/']),
{
    let root = seq!['/'];
    assert(root.drop_last() =~= Seq::<char>::empty());
    reveal_with_fuel(trimmed_len, 2);
    assert(trimmed_len(root) == 0);
    assert(normalized_prefix(root) =~= Seq::<char>::empty());
}

/// Pages at different paths are filed under different names, but for the
/// pages at `/` and at `/index`, which are both filed under `index`.
pub proof fn lemma_stems_tell_pages_apart(first: Seq<char>, second: Seq<char>)
    requires
        is_valid_path(first),
        is_valid_path(second),
        page_stem(first) == page_stem(second),
    ensures
        first == second || (first.len() == 1 && second == "/index"@) || (second.len() == 1
            && first == "/index"@),
{
    reveal_strlit("index");
    reveal_strlit("/index");
    if first.len() > 1 && second.len() > 1 {
        assert(first =~= seq!['/'] + first.skip(1));
        assert(second =~= seq!['/'] + second.skip(1));
    } else if first.len() == 1 && second.len() > 1 {
        assert(second =~= seq!['/'] + second.skip(1));
        assert(second =~= "/index"@);
    } else if second.len() == 1 && first.len() > 1 {
        assert(first =~= seq!['/'] + first.skip(1));
        assert(first =~= "/index"@);
    } else {
        assert(first =~= second);
    }
}

/// Checks that `path` is a valid route path.
pub fn validate_path(path: &str) -> (valid: bool)
    ensures
        valid == is_valid_path(path@),
{
    !path.is_empty() && path.get_char(0) == '/'
}

/// Checks whether `text` ends with `/`.
pub fn has_trailing_slash(text: &str) -> (ends: bool)
    ensures
        ends == ends_with_slash(text@),
{
    let len: usize = text.unicode_len();
    len > 0 && text.get_char(len - 1) == '/'
}

/// Returns `prefix` without its trailing slashes.
pub fn normalize_prefix(prefix: &str) -> (normalized: String)
    ensures
        normalized@ == normalized_prefix(prefix@),
{
    let mut end: usize = prefix.unicode_len();
    proof {
        assert(prefix@.take(end as int) =~= prefix@);
    }
    while end > 0 && prefix.get_char(end - 1) == '/'
        invariant
            end <= prefix@.len(),
            trimmed_len(prefix@) == trimmed_len(prefix@.take(end as int)),
        decreases end,
    {
        proof {
            assert(prefix@.take(end as int).drop_last() =~= prefix@.take(end - 1));
        }
        end = end - 1;
    }
    proof {
        assert(prefix@.subrange(0, end as int) =~= prefix@.take(end as int));
    }
    prefix.substring_char(0, end).to_owned()
}

/// Returns `prefix` followed by `path`.
pub fn join_path(prefix: &str, path: &str) -> (joined: String)
    ensures
        joined@ == prefix@ + path@,
{
    prefix.to_owned().concat(path)
}

/// Returns the path at which the fallback page of `scope` is placed.
pub fn place_fallback(scope: &str, page_name: &str) -> (path: String)
    ensures
        path@ == fallback_path(scope@, page_name@),
{
    let mut path = scope.to_owned();
    if !has_trailing_slash(scope) {
        proof {
            reveal_strlit("/");
            assert("/"@ =~= seq!['/']);
        }
        path.append("/");
    }
    path.append(page_name);
    path
}

/// Returns the name under which the page of `path` is filed, relative to
/// the output directory and before an extension is given to it.
pub fn page_file_stem(path: &str) -> (stem: String)
    requires
        is_valid_path(path@),
    ensures
        stem@ == page_stem(path@),
{
    let len: usize = path.unicode_len();
    if len == 1 {
        "index".to_owned()
    } else {
        proof {
            assert(path@.skip(1) =~= path@.subrange(1, len as int));
        }
        path.substring_char(1, len).to_owned()
    }
}

} // verus!
