//! The shortest prefix of a name that none of its siblings begins with.

use std::borrow::Cow;
use vstd::prelude::*;
use vstd::string::StrSliceExecFns;

verus! {

/// Some name in `siblings` begins with `prefix`.
pub open spec fn shared(prefix: Seq<char>, siblings: Seq<Seq<char>>) -> bool {
    exists|i: int| 0 <= i < siblings.len() && prefix.is_prefix_of(#[trigger] siblings[i])
}

/// The least `n` with `from <= n < name.len()` whose `n`-character prefix of
/// `name` is shared with no sibling, and `name.len()` where there is none.
pub open spec fn unique_len_from(name: Seq<char>, siblings: Seq<Seq<char>>, from: int) -> int
    decreases name.len() - from,
{
    if from >= name.len() {
        name.len() as int
    } else if !shared(name.take(from), siblings) {
        from
    } else {
        unique_len_from(name, siblings, from + 1)
    }
}

/// The number of characters that `name` is cut to: the least proper prefix
/// length, counted from one, that tells it from every sibling, and the whole
/// length where no proper prefix does.
pub open spec fn shortest_unique_len(name: Seq<char>, siblings: Seq<Seq<char>>) -> int {
    unique_len_from(name, siblings, 1)
}

/// The shortest unique prefix of `name` among `siblings`.
pub open spec fn shortest_unique(name: Seq<char>, siblings: Seq<Seq<char>>) -> Seq<char> {
    name.take(shortest_unique_len(name, siblings))
}

/// `str::starts_with` with a string as the pattern: whether `text` begins
/// with `prefix`, character by character.
#[verifier::external_body]
fn starts_with(text: &str, prefix: &str) -> (yes: bool)
    ensures
        yes == prefix@.is_prefix_of(text@),
{
    text.starts_with(prefix)
}

/// Whether any of `others` begins with `prefix`.
pub fn any_starts_with(others: &[&str], prefix: &str) -> (yes: bool)
    ensures
        yes == shared(prefix@, others.deep_view()),
{
    let mut i: usize = 0;
    while i < others.len()
        invariant
            i <= others@.len(),
            forall|j: int| 0 <= j < i ==> !prefix@.is_prefix_of(#[trigger] others.deep_view()[j]),
        decreases others@.len() - i,
    {
        if starts_with(others[i], prefix) {
            assert(prefix@.is_prefix_of(others.deep_view()[i as int]));
            return true;
        }
        i += 1;
    }
    false
}

/// Cuts `name` to its shortest unique prefix among `others`.
///
/// Lengths count characters, so a character that takes several bytes counts
/// once. An empty `others` gives the first character; a name of at most one
/// character, and one whose every proper prefix some sibling shares, comes
/// back whole.
pub fn shortest_unique_prefix<'a>(name: &'a str, others: &[&str]) -> (prefix: Cow<'a, str>)
    ensures
        prefix@ == shortest_unique(name@, others.deep_view()),
        prefix@.len() == shortest_unique_len(name@, others.deep_view()),
        prefix@.is_prefix_of(name@),
        prefix@ == name@ || !shared(prefix@, others.deep_view()),
        forall|n: int|
            1 <= n < prefix@.len() ==> shared(#[trigger] name@.take(n), others.deep_view()),
{
    let len = name.unicode_len();
    let mut n: usize = 1;
    while n < len
        invariant
            1 <= n,
            len == name@.len(),
            unique_len_from(name@, others.deep_view(), n as int) == shortest_unique_len(
                name@,
                others.deep_view(),
            ),
        decreases len - n,
    {
        let sub = name.substring_char(0, n);
        if !any_starts_with(others, sub) {
            proof {
                lemma_unique_len_from(name@, others.deep_view(), 1);
            }
            return Cow::Owned(sub.to_owned());
        }
        n += 1;
    }
    proof {
        lemma_unique_len_from(name@, others.deep_view(), 1);
    }
    Cow::Borrowed(name)
}

/// Where the search from `from` ends: inside the name or at its end, on the
/// first length that no sibling shares, with every length passed over shared.
pub proof fn lemma_unique_len_from(name: Seq<char>, siblings: Seq<Seq<char>>, from: int)
    ensures
        from <= name.len() ==> from <= unique_len_from(name, siblings, from) <= name.len(),
        from > name.len() ==> unique_len_from(name, siblings, from) == name.len(),
        unique_len_from(name, siblings, from) < name.len() ==> !shared(
            name.take(unique_len_from(name, siblings, from)),
            siblings,
        ),
        forall|m: int|
            from <= m < unique_len_from(name, siblings, from) ==> shared(
                #[trigger] name.take(m),
                siblings,
            ),
    decreases name.len() - from,
{
    if from < name.len() && shared(name.take(from), siblings) {
        lemma_unique_len_from(name, siblings, from + 1);
    }
}

/// The shortest unique prefix is a prefix of the name. Unless it is the whole
/// name, no sibling begins with it.
pub proof fn lemma_prefix_tells_apart(name: Seq<char>, siblings: Seq<Seq<char>>)
    ensures
        shortest_unique(name, siblings).is_prefix_of(name),
        shortest_unique(name, siblings) == name || !shared(
            shortest_unique(name, siblings),
            siblings,
        ),
{
    lemma_unique_len_from(name, siblings, 1);
}

/// The shortest unique prefix has at least one character of a name that has
/// any, and is proper only where it is unique.
pub proof fn lemma_prefix_len(name: Seq<char>, siblings: Seq<Seq<char>>)
    ensures
        shortest_unique(name, siblings).len() == shortest_unique_len(name, siblings),
        name.len() == 0 ==> shortest_unique_len(name, siblings) == 0,
        name.len() >= 1 ==> 1 <= shortest_unique_len(name, siblings) <= name.len(),
{
    lemma_unique_len_from(name, siblings, 1);
}

/// No shorter prefix would do: every prefix of at least one character that
/// is shorter than the shortest unique prefix is shared with some sibling.
pub proof fn lemma_no_shorter_prefix(name: Seq<char>, siblings: Seq<Seq<char>>, n: int)
    requires
        1 <= n < shortest_unique(name, siblings).len(),
    ensures
        shared(name.take(n), siblings),
{
    lemma_unique_len_from(name, siblings, 1);
}

/// A length at which the prefix is unique, below the whole length, is never
/// passed over: the shortest unique prefix is at most that long.
pub proof fn lemma_unique_prefix_bounds(name: Seq<char>, siblings: Seq<Seq<char>>, n: int)
    requires
        1 <= n < name.len(),
        !shared(name.take(n), siblings),
    ensures
        shortest_unique(name, siblings).len() <= n,
{
    lemma_unique_len_from(name, siblings, 1);
}

/// A prefix that no sibling shares stays unique as it grows: no sibling
/// shares a longer prefix of the name either.
pub proof fn lemma_unique_stays_unique(
    name: Seq<char>,
    siblings: Seq<Seq<char>>,
    n: int,
    longer: int,
)
    requires
        0 <= n <= longer <= name.len(),
        !shared(name.take(n), siblings),
    ensures
        !shared(name.take(longer), siblings),
{
    if shared(name.take(longer), siblings) {
        let i = choose|i: int|
            0 <= i < siblings.len() && name.take(longer).is_prefix_of(#[trigger] siblings[i]);
        assert(name.take(n).is_prefix_of(siblings[i]));
    }
}

/// A name without siblings is cut to its first character.
pub proof fn lemma_alone_first_char(name: Seq<char>)
    requires
        name.len() >= 1,
    ensures
        shortest_unique(name, Seq::empty()) == name.take(1),
{
}

/// Only which names are among the siblings counts, not their order nor how
/// often one occurs.
pub proof fn lemma_shared_by_set(prefix: Seq<char>, a: Seq<Seq<char>>, b: Seq<Seq<char>>)
    requires
        a.to_set() == b.to_set(),
    ensures
        shared(prefix, a) == shared(prefix, b),
{
    if shared(prefix, a) {
        let i = choose|i: int| 0 <= i < a.len() && prefix.is_prefix_of(#[trigger] a[i]);
        assert(a.to_set().contains(a[i]));
    }
    if shared(prefix, b) {
        let i = choose|i: int| 0 <= i < b.len() && prefix.is_prefix_of(#[trigger] b[i]);
        assert(b.to_set().contains(b[i]));
    }
}

/// Cutting is a function of the name and of the set of its siblings: the
/// same name among the same siblings is always cut to the same prefix, in
/// whatever order the siblings come.
pub proof fn lemma_prefix_by_set(name: Seq<char>, a: Seq<Seq<char>>, b: Seq<Seq<char>>)
    requires
        a.to_set() == b.to_set(),
    ensures
        shortest_unique(name, a) == shortest_unique(name, b),
{
    lemma_unique_len_by_set(name, a, b, 1);
}

proof fn lemma_unique_len_by_set(
    name: Seq<char>,
    a: Seq<Seq<char>>,
    b: Seq<Seq<char>>,
    from: int,
)
    requires
        a.to_set() == b.to_set(),
    ensures
        unique_len_from(name, a, from) == unique_len_from(name, b, from),
    decreases name.len() - from,
{
    if from < name.len() {
        lemma_shared_by_set(name.take(from), a, b);
        if shared(name.take(from), a) {
            lemma_unique_len_by_set(name, a, b, from + 1);
        }
    }
}

} // verus!
