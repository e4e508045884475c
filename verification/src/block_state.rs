//! The block-state syntax of reset plans: `name` or `name[key=value,...]`.

use vstd::prelude::*;

use crate::error::PlanError;
use crate::fxset::{insert_key, key_set_contents, new_key_set};

verus! {

/// The characters of `s`, in order.
fn char_vec(s: &str) -> (chars: Vec<char>)
    ensures
        chars@ == s@,
{
    let mut chars: Vec<char> = Vec::new();
    for c in it: s.chars()
        invariant
            chars@ == it.seq().take(it.index() as int),
    {
        chars.push(c);
    }
    chars
}

/// A block state split into its name and, when it has a bracketed list,
/// the text between the brackets.
#[derive(Clone, Debug, PartialEq, Eq)]
pub struct StateSyntax {
    pub name: String,
    pub properties: Option<String>,
}

/// How a block-state string splits at its first `[`: the name before it and
/// the property text between it and a closing `]` that ends the string.
pub open spec fn spec_split_state(value: Seq<char>) -> Result<(Seq<char>, Option<Seq<char>>), PlanError> {
    match value.index_of_first('[') {
        Some(i) => {
            let rest = value.skip(i + 1);
            if rest.len() == 0 || rest.last() != ']' {
                Err(PlanError::UnmatchedBracket)
            } else if rest.len() == 1 {
                Err(PlanError::EmptyPropertyList)
            } else {
                Ok((value.take(i), Some(rest.drop_last())))
            }
        },
        None => {
            if value.contains(']') {
                Err(PlanError::UnmatchedClosingBracket)
            } else {
                Ok((value, None))
            }
        },
    }
}

/// A block state that splits is its name, followed, when it has a property
/// list, by that list in brackets; the name holds no `[`, and a state
/// without a list holds no bracket at all.
pub proof fn lemma_split_state_round_trip(value: Seq<char>)
    requires
        spec_split_state(value) is Ok,
    ensures
        ({
            let (name, properties) = spec_split_state(value)->Ok_0;
            &&& !name.contains('[')
            &&& match properties {
                Some(text) => value == name.push('[') + text.push(']') && text.len() > 0,
                None => value == name && !value.contains(']'),
            }
        }),
{
    value.index_of_first_ensures('[');
    if let Some(i) = value.index_of_first('[') {
        let name = value.take(i);
        let rest = value.skip(i + 1);
        assert(value =~= name.push('[') + rest.drop_last().push(']'));
        if name.contains('[') {
            let k = choose|k: int| 0 <= k < name.len() && name[k] == '[';
            assert(value[k] == '[');
        }
    }
}

/// Splitting accepts every `name[text]` whose name holds no `[` and whose
/// text is not empty, answering that name and text, and every string
/// without brackets, answering it whole as the name.
pub proof fn lemma_split_state_complete(name: Seq<char>, text: Seq<char>)
    ensures
        !name.contains('[') && text.len() > 0 ==> spec_split_state(name.push('[') + text.push(']'))
            == Ok::<(Seq<char>, Option<Seq<char>>), PlanError>((name, Some(text))),
        !name.contains('[') && !name.contains(']') ==> spec_split_state(name) == Ok::<
            (Seq<char>, Option<Seq<char>>),
            PlanError,
        >((name, None)),
{
    let value = name.push('[') + text.push(']');
    if !name.contains('[') {
        assert forall|k: int| 0 <= k < name.len() implies value[k] != '[' by {
            assert(value[k] == name[k]);
        }
        assert(value[name.len() as int] == '[');
        lemma_first_at(value, '[', name.len() as int);
        assert(value.take(name.len() as int) =~= name);
        assert(value.skip(name.len() as int + 1) =~= text.push(']'));
        assert(text.push(']').drop_last() =~= text);
    }
    name.index_of_first_ensures('[');
}

/// Each refusal is really a bracket fault: an opening `[` while the string
/// does not end in `]`, an empty `[]` list at the first `[`, or a `]`
/// without any `[`.
pub proof fn lemma_split_state_errors(value: Seq<char>)
    ensures
        spec_split_state(value) == Err::<(Seq<char>, Option<Seq<char>>), PlanError>(
            PlanError::UnmatchedBracket,
        ) ==> value.contains('[') && value.last() != ']',
        spec_split_state(value) == Err::<(Seq<char>, Option<Seq<char>>), PlanError>(
            PlanError::EmptyPropertyList,
        ) ==> value.len() >= 2 && value[value.len() - 2] == '[' && value.last() == ']'
            && value.index_of_first('[') == Some(value.len() - 2),
        spec_split_state(value) == Err::<(Seq<char>, Option<Seq<char>>), PlanError>(
            PlanError::UnmatchedClosingBracket,
        ) ==> !value.contains('[') && value.contains(']'),
        spec_split_state(value) is Ok || spec_split_state(value) == Err::<
            (Seq<char>, Option<Seq<char>>),
            PlanError,
        >(PlanError::UnmatchedBracket) || spec_split_state(value) == Err::<
            (Seq<char>, Option<Seq<char>>),
            PlanError,
        >(PlanError::EmptyPropertyList) || spec_split_state(value) == Err::<
            (Seq<char>, Option<Seq<char>>),
            PlanError,
        >(PlanError::UnmatchedClosingBracket),
{
    value.index_of_first_ensures('[');
    if let Some(i) = value.index_of_first('[') {
        let rest = value.skip(i + 1);
        if rest.len() > 0 {
            assert(rest.last() == value.last());
        } else {
            assert(value.last() == '[');
        }
    }
}

/// The position of the first `c` in `chars`, if any.
fn find_char(chars: &Vec<char>, c: char) -> (found: Option<usize>)
    ensures
        match found {
            Some(i) => chars@.index_of_first(c) == Some(i as int),
            None => chars@.index_of_first(c) is None,
        },
        match found {
            Some(i) => {
                &&& i < chars@.len()
                &&& chars@[i as int] == c
                &&& forall|k: int| 0 <= k < i ==> chars@[k] != c
            },
            None => !chars@.contains(c),
        },
{
    proof {
        chars@.index_of_first_ensures(c);
    }
    let mut i: usize = 0;
    while i < chars.len()
        invariant
            0 <= i <= chars@.len(),
            forall|k: int| 0 <= k < i ==> chars@[k] != c,
            match chars@.index_of_first(c) {
                Some(j) => {
                    &&& 0 <= j < chars@.len()
                    &&& chars@[j] == c
                    &&& forall|k: int| 0 <= k < j ==> chars@[k] != c
                },
                None => !chars@.contains(c),
            },
        decreases chars@.len() - i,
    {
        if chars[i] == c {
            return Some(i);
        }
        i = i + 1;
    }
    None
}

/// Splits a block state at its first `[` into a name and the text of its
/// property list, refusing unbalanced brackets and an empty list.
pub fn split_state(value: &str) -> (res: Result<StateSyntax, PlanError>)
    ensures
        match spec_split_state(value@) {
            Ok((name, properties)) => res matches Ok(syntax) && syntax.name@ == name && match properties {
                Some(text) => syntax.properties matches Some(t) && t@ == text,
                None => syntax.properties is None,
            },
            Err(e) => res == Err::<StateSyntax, PlanError>(e),
        },
{
    let chars = char_vec(value);
    let len = chars.len();
    match find_char(&chars, '[') {
        Some(open) => {
            proof {
                let rest = value@.skip(open + 1);
                assert(rest.len() == len - open - 1);
                if rest.len() > 0 {
                    assert(rest.last() == value@[len - 1]);
                }
            }
            if open + 1 == len || chars[len - 1] != ']' {
                return Err(PlanError::UnmatchedBracket);
            }
            if open + 2 == len {
                return Err(PlanError::EmptyPropertyList);
            }
            let name = value.substring_char(0, open).to_owned();
            let properties = value.substring_char(open + 1, len - 1).to_owned();
            proof {
                assert(value@.take(open as int) =~= value@.subrange(0, open as int));
                assert(value@.skip(open + 1).drop_last() =~= value@.subrange(open + 1, len - 1));
            }
            Ok(StateSyntax { name, properties: Some(properties) })
        },
        None => {
            if find_char(&chars, ']').is_some() {
                return Err(PlanError::UnmatchedClosingBracket);
            }
            Ok(StateSyntax { name: value.to_owned(), properties: None })
        },
    }
}

/// The pieces of `s` between occurrences of `sep`, in order; a string with
/// `k` separators has `k + 1` pieces, some of them possibly empty.
pub open spec fn split_on(s: Seq<char>, sep: char) -> Seq<Seq<char>>
    decreases s.len(),
{
    match s.index_of_first(sep) {
        Some(i) => {
            proof {
                s.index_of_first_ensures(sep);
            }
            seq![s.take(i)] + split_on(s.skip(i + 1), sep)
        },
        None => seq![s],
    }
}

/// A property `key=value` split at its first `=`.
pub open spec fn key_value(item: Seq<char>) -> Option<(Seq<char>, Seq<char>)> {
    match item.index_of_first('=') {
        Some(i) => Some((item.take(i), item.skip(i + 1))),
        None => None,
    }
}

/// The key of a well-formed property.
pub open spec fn property_key(item: Seq<char>) -> Seq<char> {
    key_value(item)->Some_0.0
}

/// The keys of a run of well-formed properties.
pub open spec fn property_keys(items: Seq<Seq<char>>) -> Seq<Seq<char>> {
    items.map_values(|it: Seq<char>| property_key(it))
}

/// The `(key, value)` pairs of a run of well-formed properties.
pub open spec fn property_pairs(items: Seq<Seq<char>>) -> Seq<(Seq<char>, Seq<char>)> {
    items.map_values(|it: Seq<char>| key_value(it)->Some_0)
}

/// What is wrong with a property list.
pub enum PropertyIssue {
    /// This property has no `=`.
    Malformed(Seq<char>),
    /// This key was already given by an earlier property.
    Repeated(Seq<char>),
}

/// The first problem among the first `n` properties, each checked in turn.
pub open spec fn first_property_issue(items: Seq<Seq<char>>, n: nat) -> Option<PropertyIssue>
    decreases n,
{
    if n == 0 {
        None
    } else {
        match first_property_issue(items, (n - 1) as nat) {
            Some(e) => Some(e),
            None => {
                let item = items[n - 1];
                if key_value(item) is None {
                    Some(PropertyIssue::Malformed(item))
                } else if property_keys(items.take(n - 1)).contains(property_key(item)) {
                    Some(PropertyIssue::Repeated(property_key(item)))
                } else {
                    None
                }
            },
        }
    }
}

/// What splitting a property list answers: every `key=value` pair in order,
/// or the first malformed or repeated property.
pub open spec fn spec_split_properties(text: Seq<char>) -> Result<Seq<(Seq<char>, Seq<char>)>, PropertyIssue> {
    let items = split_on(text, ',');
    match first_property_issue(items, items.len()) {
        Some(e) => Err(e),
        None => Ok(property_pairs(items)),
    }
}

/// The pieces written back with `sep` between each two of them.
pub open spec fn join_on(pieces: Seq<Seq<char>>, sep: char) -> Seq<char>
    decreases pieces.len(),
{
    if pieces.len() == 0 {
        Seq::empty()
    } else if pieces.len() == 1 {
        pieces[0]
    } else {
        pieces[0].push(sep) + join_on(pieces.drop_first(), sep)
    }
}

/// Splitting never loses a character: writing the pieces back with the
/// separator between them gives the original string, there is always at
/// least one piece, and no piece holds the separator.
pub proof fn lemma_split_join(s: Seq<char>, sep: char)
    ensures
        split_on(s, sep).len() >= 1,
        join_on(split_on(s, sep), sep) == s,
        forall|i: int| 0 <= i < split_on(s, sep).len() ==> !(#[trigger] split_on(s, sep)[i]).contains(sep),
    decreases s.len(),
{
    s.index_of_first_ensures(sep);
    if let Some(i) = s.index_of_first(sep) {
        let tail = s.skip(i + 1);
        lemma_split_join(tail, sep);
        let pieces = split_on(s, sep);
        assert(pieces.drop_first() =~= split_on(tail, sep));
        assert(s =~= s.take(i).push(sep) + tail);
        assert forall|k: int| 0 <= k < pieces.len() implies !(#[trigger] pieces[k]).contains(sep) by {
            if k == 0 {
                if s.take(i).contains(sep) {
                    let m = choose|m: int| 0 <= m < s.take(i).len() && s.take(i)[m] == sep;
                    assert(s[m] == sep);
                }
            } else {
                assert(pieces[k] == split_on(tail, sep)[k - 1]);
            }
        }
    } else {
        assert(split_on(s, sep)[0] == s);
    }
}

/// The first occurrence of `sep` in `s`, if it is at `i`.
proof fn lemma_first_at(s: Seq<char>, sep: char, i: int)
    requires
        0 <= i < s.len(),
        s[i] == sep,
        forall|k: int| 0 <= k < i ==> s[k] != sep,
    ensures
        s.index_of_first(sep) == Some(i),
{
    s.index_of_first_ensures(sep);
    assert(s.contains(sep));
}

/// One step of splitting: the piece that starts at `start` ends at `end`.
proof fn lemma_split_step(s: Seq<char>, sep: char, start: int, end: int)
    requires
        0 <= start <= end <= s.len(),
        forall|k: int| start <= k < end ==> s[k] != sep,
        end < s.len() ==> s[end] == sep,
    ensures
        end < s.len() ==> split_on(s.skip(start), sep) == seq![s.subrange(start, end)] + split_on(
            s.skip(end + 1),
            sep,
        ),
        end == s.len() ==> split_on(s.skip(start), sep) == seq![s.subrange(start, end)],
{
    let t = s.skip(start);
    if end < s.len() {
        lemma_first_at(t, sep, end - start);
        assert(t.take(end - start) =~= s.subrange(start, end));
        assert(t.skip(end - start + 1) =~= s.skip(end + 1));
    } else {
        t.index_of_first_ensures(sep);
        if t.contains(sep) {
            let k = choose|k: int| 0 <= k < t.len() && t[k] == sep;
            assert(s[start + k] == sep);
        }
        assert(t =~= s.subrange(start, end));
    }
}

/// The first problem among the first `n` properties depends on those alone.
proof fn lemma_issue_prefix(items: Seq<Seq<char>>, more: Seq<Seq<char>>, n: nat)
    requires
        n <= items.len(),
    ensures
        first_property_issue(items + more, n) == first_property_issue(items, n),
    decreases n,
{
    if n > 0 {
        lemma_issue_prefix(items, more, (n - 1) as nat);
        assert((items + more).take(n - 1) =~= items.take(n - 1));
    }
}

/// Once a problem is found among the first `n` properties, it stays the
/// first problem among any longer prefix.
proof fn lemma_issue_persists(items: Seq<Seq<char>>, n: nat, m: nat)
    requires
        n <= m,
        first_property_issue(items, n) is Some,
    ensures
        first_property_issue(items, m) == first_property_issue(items, n),
    decreases m - n,
{
    if n < m {
        lemma_issue_persists(items, n, (m - 1) as nat);
    }
}

/// Among the first `n` properties of an issue-free list, every property has
/// an `=` and no key repeats an earlier one.
proof fn lemma_no_issue_means_distinct_keys(items: Seq<Seq<char>>, n: nat)
    requires
        n <= items.len(),
        first_property_issue(items, n) is None,
    ensures
        forall|k: int| 0 <= k < n ==> key_value(#[trigger] items[k]) is Some,
        forall|j: int, k: int|
            0 <= j < k < n ==> property_key(#[trigger] items[j]) != property_key(#[trigger] items[k]),
    decreases n,
{
    if n > 0 {
        lemma_no_issue_means_distinct_keys(items, (n - 1) as nat);
        assert forall|j: int, k: int| 0 <= j < k < n implies property_key(#[trigger] items[j])
            != property_key(#[trigger] items[k]) by {
            if k == n - 1 {
                assert(property_keys(items.take(n - 1))[j] == property_key(items[j]));
            }
        }
    }
}

/// The pairs as the properties they were written as: `key=value`.
pub open spec fn written_pairs(pairs: Seq<(Seq<char>, Seq<char>)>) -> Seq<Seq<char>> {
    pairs.map_values(|kv: (Seq<char>, Seq<char>)| kv.0.push('=') + kv.1)
}

/// A property list that splits is exactly its pairs written as `key=value`
/// and joined by commas, and no key appears twice.
pub proof fn lemma_split_properties_round_trip(text: Seq<char>)
    requires
        spec_split_properties(text) is Ok,
    ensures
        ({
            let pairs = spec_split_properties(text)->Ok_0;
            &&& pairs.len() >= 1
            &&& join_on(written_pairs(pairs), ',') == text
            &&& forall|i: int, j: int| 0 <= i < j < pairs.len() ==> #[trigger] pairs[i].0 != #[trigger] pairs[j].0
        }),
{
    let items = split_on(text, ',');
    lemma_split_join(text, ',');
    lemma_no_issue_means_distinct_keys(items, items.len());
    let pairs = property_pairs(items);
    assert forall|k: int| 0 <= k < items.len() implies #[trigger] written_pairs(pairs)[k] == items[k] by {
        let item = items[k];
        assert(key_value(item) is Some);
        item.index_of_first_ensures('=');
        let i = item.index_of_first('=')->Some_0;
        assert(item =~= item.take(i).push('=') + item.skip(i + 1));
    }
    assert(written_pairs(pairs) =~= items);
    assert forall|i: int, j: int| 0 <= i < j < pairs.len() implies #[trigger] pairs[i].0
        != #[trigger] pairs[j].0 by {
        assert(property_key(items[i]) != property_key(items[j]));
    }
}

/// The key of a property holding `=`: everything before its first `=`.
pub open spec fn key_before_equals(item: Seq<char>) -> Seq<char> {
    item.take(item.index_of_first('=')->Some_0)
}

/// The value of a property holding `=`: everything after its first `=`.
pub open spec fn value_after_equals(item: Seq<char>) -> Seq<char> {
    item.skip(item.index_of_first('=')->Some_0 + 1)
}

/// A list whose properties all hold `=` and have pairwise distinct keys
/// raises no issue.
proof fn lemma_sound_list_raises_no_issue(items: Seq<Seq<char>>, n: nat)
    requires
        n <= items.len(),
        forall|i: int| 0 <= i < n ==> (#[trigger] items[i]).contains('='),
        forall|i: int, j: int|
            0 <= i < j < n ==> key_before_equals(#[trigger] items[i]) != key_before_equals(
                #[trigger] items[j],
            ),
    ensures
        first_property_issue(items, n) is None,
    decreases n,
{
    if n > 0 {
        lemma_sound_list_raises_no_issue(items, (n - 1) as nat);
        let item = items[n - 1];
        assert(item.contains('='));
        item.index_of_first_ensures('=');
        let keys = property_keys(items.take(n - 1));
        if keys.contains(property_key(item)) {
            let j = choose|j: int| 0 <= j < keys.len() && #[trigger] keys[j] == property_key(item);
            let other = items[j];
            assert(items.take(n - 1)[j] == other);
            other.index_of_first_ensures('=');
            assert(key_before_equals(other) == key_before_equals(item));
        }
    }
}

/// Every problem found in a list is really there: a property without `=`
/// in the list, or a key that two properties of the list share.
proof fn lemma_property_issue_witness(items: Seq<Seq<char>>, n: nat)
    requires
        n <= items.len(),
    ensures
        match first_property_issue(items, n) {
            None => true,
            Some(PropertyIssue::Malformed(item)) => exists|k: int|
                0 <= k < n && #[trigger] items[k] == item && !item.contains('='),
            Some(PropertyIssue::Repeated(key)) => exists|j: int, k: int|
                0 <= j < k < n && (#[trigger] items[j]).contains('=') && (#[trigger] items[k]).contains('=')
                    && key_before_equals(items[j]) == key && key_before_equals(items[k]) == key,
        },
    decreases n,
{
    if n > 0 {
        lemma_property_issue_witness(items, (n - 1) as nat);
        if first_property_issue(items, (n - 1) as nat) is None {
            let item = items[n - 1];
            item.index_of_first_ensures('=');
            if key_value(item) is None {
                assert(items[n - 1] == item);
            } else {
                let keys = property_keys(items.take(n - 1));
                if keys.contains(property_key(item)) {
                    let j = choose|j: int| 0 <= j < keys.len() && #[trigger] keys[j] == property_key(item);
                    assert(items.take(n - 1)[j] == items[j]);
                    lemma_no_issue_means_distinct_keys(items, (n - 1) as nat);
                    assert(key_value(items[j]) is Some);
                    items[j].index_of_first_ensures('=');
                    assert(items[j].contains('='));
                    assert(items[n - 1].contains('='));
                }
            }
        }
    }
}

/// Splitting accepts every property list whose comma-separated properties
/// all hold `=` with pairwise distinct keys, and answers each property as
/// the text before and after its first `=`, in list order.
pub proof fn lemma_split_properties_complete(text: Seq<char>)
    requires
        forall|i: int|
            0 <= i < split_on(text, ',').len() ==> (#[trigger] split_on(text, ',')[i]).contains('='),
        forall|i: int, j: int|
            0 <= i < j < split_on(text, ',').len() ==> key_before_equals(
                #[trigger] split_on(text, ',')[i],
            ) != key_before_equals(#[trigger] split_on(text, ',')[j]),
    ensures
        spec_split_properties(text) is Ok,
        spec_split_properties(text)->Ok_0.len() == split_on(text, ',').len(),
        forall|i: int|
            0 <= i < split_on(text, ',').len() ==> #[trigger] spec_split_properties(text)->Ok_0[i] == (
                key_before_equals(split_on(text, ',')[i]),
                value_after_equals(split_on(text, ',')[i]),
            ),
{
    let items = split_on(text, ',');
    lemma_sound_list_raises_no_issue(items, items.len());
    assert forall|i: int| 0 <= i < items.len() implies #[trigger] spec_split_properties(text)->Ok_0[i] == (
        key_before_equals(items[i]),
        value_after_equals(items[i]),
    ) by {
        items[i].index_of_first_ensures('=');
    }
}

/// A refused property list names a real fault: a property of the list
/// without `=`, or a key that two properties of the list share exactly.
pub proof fn lemma_split_properties_errors(text: Seq<char>)
    ensures
        spec_split_properties(text) matches Err(PropertyIssue::Malformed(item)) ==> exists|k: int|
            0 <= k < split_on(text, ',').len() && #[trigger] split_on(text, ',')[k] == item
                && !item.contains('='),
        spec_split_properties(text) matches Err(PropertyIssue::Repeated(key)) ==> exists|j: int, k: int|
            0 <= j < k < split_on(text, ',').len() && (#[trigger] split_on(text, ',')[j]).contains('=')
                && (#[trigger] split_on(text, ',')[k]).contains('=') && key_before_equals(
                split_on(text, ',')[j],
            ) == key && key_before_equals(split_on(text, ',')[k]) == key,
{
    let items = split_on(text, ',');
    lemma_property_issue_witness(items, items.len());
}

/// The position of the first `c` in `chars[from..to]`, or `to`.
fn scan_until(chars: &Vec<char>, c: char, from: usize, to: usize) -> (at: usize)
    requires
        from <= to <= chars@.len(),
    ensures
        from <= at <= to,
        forall|k: int| from <= k < at ==> chars@[k] != c,
        at < to ==> chars@[at as int] == c,
{
    let mut at = from;
    while at < to && chars[at] != c
        invariant
            from <= at <= to <= chars@.len(),
            forall|k: int| from <= k < at ==> chars@[k] != c,
        decreases to - at,
    {
        at = at + 1;
    }
    at
}

/// Splits a property list at its commas and each property at its first `=`,
/// refusing a property without `=` and a key given twice.
pub fn split_properties(text: &str) -> (res: Result<Vec<(String, String)>, PlanError>)
    ensures
        match spec_split_properties(text@) {
            Ok(pairs) => res matches Ok(v) && v@.len() == pairs.len() && forall|k: int|
                0 <= k < pairs.len() ==> (#[trigger] v@[k]).0@ == pairs[k].0 && v@[k].1@ == pairs[k].1,
            Err(PropertyIssue::Malformed(item)) => res matches Err(PlanError::InvalidProperty(found)) && found@ == item,
            Err(PropertyIssue::Repeated(key)) => res matches Err(PlanError::DuplicateProperty(found)) && found@ == key,
        },
{
    let chars = char_vec(text);
    let len = chars.len();
    let ghost s = text@;
    let ghost all = split_on(s, ',');
    let mut seen = new_key_set();
    let mut pairs: Vec<(String, String)> = Vec::new();
    let mut start: usize = 0;
    let mut finished = false;
    let ghost mut done: Seq<Seq<char>> = Seq::empty();
    assert(s.skip(0) =~= s);
    while !finished
        invariant
            chars@ == s,
            s == text@,
            len == s.len(),
            all == split_on(s, ','),
            start <= len,
            finished ==> all == done,
            !finished ==> all == done + split_on(s.skip(start as int), ','),
            first_property_issue(done, done.len()) is None,
            pairs@.len() == done.len(),
            forall|k: int|
                0 <= k < done.len() ==> key_value(#[trigger] done[k]) is Some && pairs@[k].0@
                    == key_value(done[k])->Some_0.0 && pairs@[k].1@ == key_value(done[k])->Some_0.1,
            forall|t: Seq<char>| key_set_contents(seen).contains(t) <==> property_keys(done).contains(t),
        decreases len - start + (if finished { 0int } else { 1int }),
    {
        let end = scan_until(&chars, ',', start, len);
        let eq = scan_until(&chars, '=', start, end);
        let ghost item = s.subrange(start as int, end as int);
        let ghost rest = if end < len { split_on(s.skip(end + 1), ',') } else { Seq::empty() };
        proof {
            lemma_split_step(s, ',', start as int, end as int);
            if eq < end {
                lemma_first_at(item, '=', eq - start);
                assert(item.take(eq - start) =~= s.subrange(start as int, eq as int));
                assert(item.skip(eq - start + 1) =~= s.subrange(eq + 1, end as int));
            } else {
                item.index_of_first_ensures('=');
                if item.contains('=') {
                    let k = choose|k: int| 0 <= k < item.len() && item[k] == '=';
                    assert(s[start + k] == '=');
                }
            }
            assert(all =~= done.push(item) + rest);
            lemma_issue_prefix(done.push(item), rest, (done.len() + 1) as nat);
            assert(done.push(item) =~= done + seq![item]);
            lemma_issue_prefix(done, seq![item], done.len());
            assert(done.push(item).take(done.len() as int) =~= done);
        }
        if eq == end {
            let found = text.substring_char(start, end).to_owned();
            proof {
                lemma_issue_persists(all, (done.len() + 1) as nat, all.len());
            }
            return Err(PlanError::InvalidProperty(found));
        }
        let key = text.substring_char(start, eq);
        let value = text.substring_char(eq + 1, end);
        if !insert_key(&mut seen, key) {
            let found = key.to_owned();
            proof {
                lemma_issue_persists(all, (done.len() + 1) as nat, all.len());
            }
            return Err(PlanError::DuplicateProperty(found));
        }
        pairs.push((key.to_owned(), value.to_owned()));
        proof {
            let next = done.push(item);
            assert(property_keys(next) =~= property_keys(done).push(key@));
            assert forall|t: Seq<char>| key_set_contents(seen).contains(t) <==> property_keys(next).contains(t) by {
                if property_keys(done).contains(t) {
                    let k = choose|k: int| 0 <= k < property_keys(done).len() && property_keys(done)[k] == t;
                    assert(property_keys(next)[k] == t);
                }
                if property_keys(next).contains(t) {
                    let k = choose|k: int| 0 <= k < property_keys(next).len() && property_keys(next)[k] == t;
                    if k < done.len() {
                        assert(property_keys(done)[k] == t);
                    }
                }
                if t == key@ {
                    assert(property_keys(next)[done.len() as int] == t);
                }
            }
            done = next;
        }
        if end == len {
            finished = true;
        } else {
            start = end + 1;
        }
    }
    assert(property_pairs(all).len() == pairs@.len());
    Ok(pairs)
}

} // verus!