//! Text helpers: character sequences, fields between separators, and
//! substring search and removal.
use vstd::prelude::*;

verus! {

/// The views of a sequence of character vectors.
pub open spec fn views(v: Seq<Vec<char>>) -> Seq<Seq<char>> {
    v.map_values(|x: Vec<char>| x@)
}

/// The fields of `s` separated by `sep`, as `str::split(sep)` yields them:
/// one more field than `s` has separators, empty ones included.
pub open spec fn split_on(s: Seq<char>, sep: char) -> Seq<Seq<char>>
    decreases s.len(),
{
    if s.len() == 0 {
        seq![Seq::empty()]
    } else {
        let fields = split_on(s.drop_last(), sep);
        if s.last() == sep {
            fields.push(Seq::empty())
        } else {
            fields.update(fields.len() - 1, fields.last().push(s.last()))
        }
    }
}

/// The fields joined back together with `sep` between each two.
pub open spec fn join_with(fields: Seq<Seq<char>>, sep: char) -> Seq<char>
    decreases fields.len(),
{
    if fields.len() == 0 {
        Seq::empty()
    } else if fields.len() == 1 {
        fields[0]
    } else {
        join_with(fields.drop_last(), sep) + seq![sep] + fields.last()
    }
}

/// The fields of `s` between double quotes.
pub open spec fn split_quotes(s: Seq<char>) -> Seq<Seq<char>> {
    split_on(s, '"')
}

/// The fields joined with a double quote between each two.
pub open spec fn join_quotes(fields: Seq<Seq<char>>) -> Seq<char> {
    join_with(fields, '"')
}

/// Splitting always yields at least one field.
pub proof fn lemma_split_nonempty(s: Seq<char>, sep: char)
    ensures
        split_on(s, sep).len() >= 1,
    decreases s.len(),
{
    if s.len() > 0 {
        lemma_split_nonempty(s.drop_last(), sep);
    }
}

/// Splitting on a separator and joining the fields with it gives back the
/// text unchanged.
pub proof fn lemma_join_split(s: Seq<char>, sep: char)
    ensures
        join_with(split_on(s, sep), sep) == s,
    decreases s.len(),
{
    if s.len() > 0 {
        let init = s.drop_last();
        lemma_join_split(init, sep);
        lemma_split_nonempty(init, sep);
        let fields = split_on(init, sep);
        if s.last() == sep {
            assert(split_on(s, sep).drop_last() =~= fields);
            assert(s =~= init + seq![sep] + Seq::<char>::empty());
        } else {
            let updated = fields.update(fields.len() - 1, fields.last().push(s.last()));
            if fields.len() == 1 {
                assert(s =~= fields[0].push(s.last()));
            } else {
                assert(updated.drop_last() =~= fields.drop_last());
                assert(init == join_with(fields.drop_last(), sep) + seq![sep] + fields.last());
                assert(join_with(updated, sep) == join_with(fields.drop_last(), sep) + seq![sep]
                    + fields.last().push(s.last()));
                assert(s =~= init.push(s.last()));
                assert(s =~= join_with(fields.drop_last(), sep) + seq![sep] + fields.last().push(
                    s.last(),
                ));
            }
        }
    }
}

/// `s` does not hold the character `c`.
pub open spec fn free_of(s: Seq<char>, c: char) -> bool {
    forall|i: int| 0 <= i < s.len() ==> s[i] != c
}

/// `s` holds no double quote.
pub open spec fn quote_free(s: Seq<char>) -> bool {
    free_of(s, '"')
}

/// No field that splitting yields holds the separator.
pub proof fn lemma_split_fields_free(s: Seq<char>, sep: char)
    ensures
        forall|k: int| 0 <= k < split_on(s, sep).len() ==> free_of(#[trigger] split_on(s, sep)[k], sep),
    decreases s.len(),
{
    if s.len() > 0 {
        lemma_split_fields_free(s.drop_last(), sep);
        lemma_split_nonempty(s.drop_last(), sep);
    }
}

/// Appending text free of the separator extends the last field.
pub proof fn lemma_split_append_plain(a: Seq<char>, b: Seq<char>, sep: char)
    requires
        free_of(b, sep),
    ensures
        split_on(a + b, sep) == split_on(a, sep).update(
            split_on(a, sep).len() - 1,
            split_on(a, sep).last() + b,
        ),
    decreases b.len(),
{
    lemma_split_nonempty(a, sep);
    if b.len() == 0 {
        assert(a + b =~= a);
        assert(split_on(a, sep).last() + b =~= split_on(a, sep).last());
        assert(split_on(a, sep).update(split_on(a, sep).len() - 1, split_on(a, sep).last())
            =~= split_on(a, sep));
    } else {
        let b0 = b.drop_last();
        assert(free_of(b0, sep));
        lemma_split_append_plain(a, b0, sep);
        assert((a + b).drop_last() =~= a + b0);
        assert((a + b).last() == b.last());
        assert(b.last() != sep);
        assert(split_on(a, sep).last() + b0 + seq![b.last()] =~= split_on(a, sep).last() + b);
        assert((split_on(a, sep).last() + b0).push(b.last()) =~= split_on(a, sep).last() + b);
        assert(split_on(a + b, sep) =~= split_on(a, sep).update(
            split_on(a, sep).len() - 1,
            split_on(a, sep).last() + b,
        ));
    }
}

/// Joining fields free of the separator and splitting the result gives the
/// fields back.
pub proof fn lemma_split_join(fields: Seq<Seq<char>>, sep: char)
    requires
        fields.len() >= 1,
        forall|k: int| 0 <= k < fields.len() ==> free_of(#[trigger] fields[k], sep),
    ensures
        split_on(join_with(fields, sep), sep) == fields,
    decreases fields.len(),
{
    if fields.len() == 1 {
        lemma_split_append_plain(Seq::empty(), fields[0], sep);
        assert(Seq::<char>::empty() + fields[0] =~= fields[0]);
        assert(split_on(Seq::<char>::empty(), sep).last() + fields[0] =~= fields[0]);
        assert(split_on(join_with(fields, sep), sep) =~= fields);
    } else {
        let init = fields.drop_last();
        assert forall|k: int| 0 <= k < init.len() implies free_of(#[trigger] init[k], sep) by {
            assert(init[k] == fields[k]);
        }
        lemma_split_join(init, sep);
        let a = join_with(init, sep) + seq![sep];
        assert(a.drop_last() =~= join_with(init, sep));
        assert(split_on(a, sep) == init.push(Seq::empty()));
        assert(free_of(fields.last(), sep));
        lemma_split_append_plain(a, fields.last(), sep);
        assert(Seq::<char>::empty() + fields.last() =~= fields.last());
        assert(init.push(Seq::empty()).update(init.len() as int, fields.last()) =~= fields);
    }
}

/// `pattern` occurs in `s` starting at index `at`.
pub open spec fn occurs_at(s: Seq<char>, pattern: Seq<char>, at: int) -> bool {
    0 <= at && at + pattern.len() <= s.len() && s.subrange(at, at + pattern.len()) == pattern
}

/// `pattern` occurs somewhere in `s`, as `str::contains` tells.
pub open spec fn contains_seq(s: Seq<char>, pattern: Seq<char>) -> bool {
    exists|at: int| occurs_at(s, pattern, at)
}

/// `s` with every occurrence of `pattern` removed, scanning from the left
/// and skipping over each occurrence found, as `str::replace(pattern, "")`
/// does for a non-empty pattern.
pub open spec fn remove_all(s: Seq<char>, pattern: Seq<char>) -> Seq<char>
    decreases s.len(),
{
    if s.len() == 0 {
        Seq::empty()
    } else if pattern.len() > 0 && occurs_at(s, pattern, 0) {
        remove_all(s.skip(pattern.len() as int), pattern)
    } else {
        seq![s[0]] + remove_all(s.drop_first(), pattern)
    }
}

/// `s` without its characters equal to `a` or `b`.
pub open spec fn without_chars(s: Seq<char>, a: char, b: char) -> Seq<char>
    decreases s.len(),
{
    if s.len() == 0 {
        Seq::empty()
    } else if s.last() == a || s.last() == b {
        without_chars(s.drop_last(), a, b)
    } else {
        without_chars(s.drop_last(), a, b).push(s.last())
    }
}

/// Removing the characters leaves none of them, keeps every other
/// character, and removing them again changes nothing.
pub proof fn law_without_chars(s: Seq<char>, a: char, b: char)
    ensures
        free_of(without_chars(s, a, b), a),
        free_of(without_chars(s, a, b), b),
        without_chars(without_chars(s, a, b), a, b) == without_chars(s, a, b),
        free_of(s, a) && free_of(s, b) ==> without_chars(s, a, b) == s,
    decreases s.len(),
{
    if s.len() > 0 {
        law_without_chars(s.drop_last(), a, b);
        let rest = without_chars(s.drop_last(), a, b);
        if s.last() != a && s.last() != b {
            let out = rest.push(s.last());
            assert(out.drop_last() =~= rest);
            if free_of(s, a) && free_of(s, b) {
                assert(free_of(s.drop_last(), a));
                assert(free_of(s.drop_last(), b));
                assert(s =~= s.drop_last().push(s.last()));
            }
        }
    }
}

/// The test of a character that `without_chars` keeps.
pub open spec fn kept_unless(a: char, b: char) -> spec_fn(char) -> bool {
    |c: char| c != a && c != b
}

/// Removing the characters `a` and `b` keeps every other character of `s`,
/// in order, and only those: it is `s` filtered by "neither `a` nor `b`",
/// so nothing else is dropped and nothing is added.
pub proof fn law_without_chars_is_filter(s: Seq<char>, a: char, b: char)
    ensures
        without_chars(s, a, b) == s.filter(kept_unless(a, b)),
    decreases s.len(),
{
    reveal_with_fuel(Seq::<char>::filter, 1);
    if s.len() > 0 {
        law_without_chars_is_filter(s.drop_last(), a, b);
    }
}

/// An ASCII character with its upper-case letters turned to lower case.
pub open spec fn ascii_lower(c: char) -> char {
    if 'A' <= c && c <= 'Z' {
        ((c as u32) + 32) as char
    } else {
        c
    }
}

/// Every character of `s` is ASCII.
pub open spec fn all_ascii(s: Seq<char>) -> bool {
    forall|i: int| 0 <= i < s.len() ==> (s[i] as u32) < 128
}

/// What `str::to_lowercase` returns for a text.
pub uninterp spec fn lowercase_of(text: Seq<char>) -> Seq<char>;

/// The Unicode `White_Space` property, which `char::is_whitespace` tests.
pub open spec fn white_space(c: char) -> bool {
    let u = c as u32;
    ||| 9 <= u <= 13
    ||| u == 32
    ||| u == 0x85
    ||| u == 0xA0
    ||| u == 0x1680
    ||| 0x2000 <= u <= 0x200A
    ||| u == 0x2028
    ||| u == 0x2029
    ||| u == 0x202F
    ||| u == 0x205F
    ||| u == 0x3000
}

/// `s` without its leading white space.
pub open spec fn trim_start(s: Seq<char>) -> Seq<char>
    decreases s.len(),
{
    if s.len() > 0 && white_space(s[0]) {
        trim_start(s.drop_first())
    } else {
        s
    }
}

/// `s` without its trailing white space.
pub open spec fn trim_end(s: Seq<char>) -> Seq<char>
    decreases s.len(),
{
    if s.len() > 0 && white_space(s.last()) {
        trim_end(s.drop_last())
    } else {
        s
    }
}

/// `s` without leading and trailing white space, as `str::trim` leaves it.
pub open spec fn trimmed(s: Seq<char>) -> Seq<char> {
    trim_end(trim_start(s))
}

/// No upper-case ASCII letter is among the characters.
pub open spec fn no_upper(s: Seq<char>) -> bool {
    forall|i: int| 0 <= i < s.len() ==> !('A' <= #[trigger] s[i] <= 'Z')
}

/// What `str::to_lowercase` is stated to keep of `text`: its lower-case
/// form holds no upper-case ASCII letter, and no double quote unless
/// `text` does.
pub open spec fn lowercase_keeps_plain(text: Seq<char>) -> bool {
    &&& no_upper(lowercase_text(text))
    &&& free_of(text, '"') ==> free_of(lowercase_text(text), '"')
}

/// On ASCII text the lower-case form keeps what `lowercase_keeps_plain`
/// asks.
pub proof fn lemma_ascii_lowercase_plain(text: Seq<char>)
    requires
        all_ascii(text),
    ensures
        lowercase_keeps_plain(text),
{
    let lower = text.map_values(|c: char| ascii_lower(c));
    assert forall|i: int| 0 <= i < lower.len() implies !('A' <= #[trigger] lower[i] <= 'Z') by {
        assert(lower[i] == ascii_lower(text[i]));
        assert((text[i] as u32) < 128);
    }
    if free_of(text, '"') {
        assert forall|i: int| 0 <= i < lower.len() implies lower[i] != '"' by {
            assert(lower[i] == ascii_lower(text[i]));
        }
    }
}

/// The lower-case form of `text`, as `str::to_lowercase` gives it: on ASCII
/// text each upper-case letter becomes its lower-case letter and nothing
/// else changes; other text is the named value.
pub open spec fn lowercase_text(text: Seq<char>) -> Seq<char> {
    if all_ascii(text) {
        text.map_values(|c: char| ascii_lower(c))
    } else {
        lowercase_of(text)
    }
}

/// The characters of `s`, in order.
pub fn chars_of(s: &str) -> (out: Vec<char>)
    ensures
        out@ == s@,
{
    let mut out: Vec<char> = Vec::new();
    for c in it: s.chars()
        invariant
            out@ == it.seq().take(it.index() as int),
    {
        out.push(c);
    }
    out
}

/// A string made of the given characters, by
/// `<String as FromIterator<char>>::from_iter`.
#[verifier::external_body]
pub(crate) fn string_of(chars: &Vec<char>) -> (s: String)
    ensures
        s@ == chars@,
{
    String::from_iter(chars.iter())
}

/// `str::to_lowercase`: the Unicode lower-case form of `text`. Stated: on
/// ASCII text each upper-case letter is replaced by its lower-case letter
/// and nothing else changes; other text gives the named value. Not stated:
/// the mapping of non-ASCII characters, which Unicode tables decide.
/// Besides, the result holds no upper-case ASCII letter, and no double
/// quote unless `text` does: no Unicode lower-case mapping gives either.
#[verifier::external_body]
pub(crate) fn lowercase(text: &str) -> (out: String)
    ensures
        all_ascii(text@) ==> out@ == text@.map_values(|c: char| ascii_lower(c)),
        !all_ascii(text@) ==> out@ == lowercase_of(text@),
        no_upper(out@),
        free_of(text@, '"') ==> free_of(out@, '"'),
{
    text.to_lowercase()
}

/// Whether `c` is white space (`char::is_whitespace`).
pub fn is_white_space(c: char) -> (white: bool)
    ensures
        white == white_space(c),
{
    let u = c as u32;
    (9 <= u && u <= 13) || u == 32 || u == 0x85 || u == 0xA0 || u == 0x1680 || (0x2000 <= u && u
        <= 0x200A) || u == 0x2028 || u == 0x2029 || u == 0x202F || u == 0x205F || u == 0x3000
}

/// `text` without leading and trailing white space, as `str::trim` gives it.
pub fn trim(text: &str) -> (out: &str)
    ensures
        out@ == trimmed(text@),
{
    let chars = chars_of(text);
    let n = chars.len();
    let mut start: usize = 0;
    assert(text@.skip(0) =~= text@);
    while start < n && is_white_space(chars[start])
        invariant
            chars@ == text@,
            n == chars.len(),
            start <= n,
            trim_start(text@) == trim_start(text@.skip(start as int)),
        decreases n - start,
    {
        assert(text@.skip(start as int).drop_first() =~= text@.skip(start + 1));
        start = start + 1;
    }
    assert(trim_start(text@) == text@.skip(start as int)) by {
        if start < n {
            assert(text@.skip(start as int)[0] == chars@[start as int]);
        }
    }
    let mut end: usize = n;
    assert(text@.skip(start as int) =~= text@.subrange(start as int, n as int));
    while end > start && is_white_space(chars[end - 1])
        invariant
            chars@ == text@,
            n == chars.len(),
            start <= end <= n,
            trim_end(text@.skip(start as int)) == trim_end(text@.subrange(start as int, end as int)),
        decreases end - start,
    {
        assert(text@.subrange(start as int, end as int).drop_last() =~= text@.subrange(
            start as int,
            end - 1,
        ));
        end = end - 1;
    }
    assert(trim_end(text@.subrange(start as int, end as int)) == text@.subrange(
        start as int,
        end as int,
    )) by {
        if end > start {
            assert(text@.subrange(start as int, end as int).last() == chars@[end - 1]);
        }
    }
    text.substring_char(start, end)
}

/// Whether `pattern` occurs in `s`.
pub fn contains_chars(s: &Vec<char>, pattern: &Vec<char>) -> (found: bool)
    ensures
        found == contains_seq(s@, pattern@),
{
    if pattern.len() > s.len() {
        assert forall|at: int| !occurs_at(s@, pattern@, at) by {}
        return false;
    }
    let last = s.len() - pattern.len();
    let mut at: usize = 0;
    while at < last
        invariant
            last == s.len() - pattern.len(),
            pattern.len() <= s.len(),
            at <= last,
            forall|k: int| 0 <= k < at ==> !occurs_at(s@, pattern@, k),
        decreases last - at,
    {
        if matches_at(s, pattern, at) {
            return true;
        }
        at = at + 1;
    }
    if matches_at(s, pattern, last) {
        return true;
    }
    assert forall|k: int| !occurs_at(s@, pattern@, k) by {
        if 0 <= k < at {
        }
    }
    false
}

/// Whether `pattern` occurs in `s` at index `at`.
pub fn matches_at(s: &Vec<char>, pattern: &Vec<char>, at: usize) -> (found: bool)
    ensures
        found == occurs_at(s@, pattern@, at as int),
{
    if at > s.len() || pattern.len() > s.len() - at {
        return false;
    }
    let mut k: usize = 0;
    while k < pattern.len()
        invariant
            at + pattern.len() <= s.len(),
            k <= pattern.len(),
            forall|j: int| 0 <= j < k ==> s@[at + j] == pattern@[j],
        decreases pattern.len() - k,
    {
        if s[at + k] != pattern[k] {
            assert(s@.subrange(at as int, at + pattern.len())[k as int] != pattern@[k as int]);
            return false;
        }
        k = k + 1;
    }
    assert(s@.subrange(at as int, at + pattern.len()) =~= pattern@);
    true
}

/// Whether the two character sequences are equal.
pub fn same_chars(a: &Vec<char>, b: &Vec<char>) -> (same: bool)
    ensures
        same == (a@ == b@),
{
    if a.len() != b.len() {
        return false;
    }
    let mut k: usize = 0;
    while k < a.len()
        invariant
            a.len() == b.len(),
            k <= a.len(),
            forall|j: int| 0 <= j < k ==> a@[j] == b@[j],
        decreases a.len() - k,
    {
        if a[k] != b[k] {
            return false;
        }
        k = k + 1;
    }
    assert(a@ =~= b@);
    true
}

/// `s` with every occurrence of the non-empty `pattern` removed, as
/// `str::replace(pattern, "")`.
pub fn remove_pattern(s: &Vec<char>, pattern: &Vec<char>) -> (out: Vec<char>)
    requires
        pattern.len() > 0,
    ensures
        out@ == remove_all(s@, pattern@),
{
    let mut out: Vec<char> = Vec::new();
    let mut at: usize = 0;
    assert(s@.skip(0) =~= s@);
    assert(out@ + remove_all(s@, pattern@) =~= remove_all(s@, pattern@));
    while at < s.len()
        invariant
            pattern.len() > 0,
            at <= s.len(),
            remove_all(s@, pattern@) == out@ + remove_all(s@.skip(at as int), pattern@),
        decreases s.len() - at,
    {
        let rest = Ghost(s@.skip(at as int));
        if matches_at(s, pattern, at) {
            assert(occurs_at(rest@, pattern@, 0)) by {
                assert(rest@.subrange(0, pattern.len() as int) =~= s@.subrange(
                    at as int,
                    at + pattern.len(),
                ));
            }
            assert(rest@.skip(pattern.len() as int) =~= s@.skip(at + pattern.len()));
            at = at + pattern.len();
        } else {
            assert(!occurs_at(rest@, pattern@, 0)) by {
                if occurs_at(rest@, pattern@, 0) {
                    assert(rest@.subrange(0, pattern.len() as int) =~= s@.subrange(
                        at as int,
                        at + pattern.len(),
                    ));
                }
            }
            assert(rest@.drop_first() =~= s@.skip(at + 1));
            out.push(s[at]);
            assert(out@ + remove_all(s@.skip(at + 1), pattern@) =~= out@.drop_last() + (seq![
                s@[at as int],
            ] + remove_all(rest@.drop_first(), pattern@)));
            at = at + 1;
        }
    }
    assert(s@.skip(at as int) =~= Seq::<char>::empty());
    assert(out@ + Seq::<char>::empty() =~= out@);
    out
}

/// `s` without its characters equal to `a` or `b`, as two calls of
/// `str::replace(c, "")` leave it.
pub fn remove_chars(s: &Vec<char>, a: char, b: char) -> (out: Vec<char>)
    ensures
        out@ == without_chars(s@, a, b),
{
    let mut out: Vec<char> = Vec::new();
    let mut k: usize = 0;
    while k < s.len()
        invariant
            k <= s.len(),
            out@ == without_chars(s@.take(k as int), a, b),
        decreases s.len() - k,
    {
        assert(s@.take(k + 1).drop_last() =~= s@.take(k as int));
        if s[k] != a && s[k] != b {
            out.push(s[k]);
        }
        k = k + 1;
    }
    assert(s@.take(s.len() as int) =~= s@);
    out
}

/// The fields of `s` separated by `sep`, as `str::split(sep)` yields them.
pub fn split_fields(s: &Vec<char>, sep: char) -> (fields: Vec<Vec<char>>)
    ensures
        views(fields@) == split_on(s@, sep),
{
    let mut fields: Vec<Vec<char>> = Vec::new();
    let mut current: Vec<char> = Vec::new();
    let mut k: usize = 0;
    assert(s@.take(0) =~= Seq::<char>::empty());
    assert(views(fields@).push(current@) =~= split_on(s@.take(0), sep));
    while k < s.len()
        invariant
            k <= s.len(),
            views(fields@).push(current@) == split_on(s@.take(k as int), sep),
        decreases s.len() - k,
    {
        let ghost before = views(fields@).push(current@);
        assert(s@.take(k + 1).drop_last() =~= s@.take(k as int));
        if s[k] == sep {
            fields.push(current);
            current = Vec::new();
            assert(views(fields@).push(current@) =~= before.push(Seq::empty()));
        } else {
            current.push(s[k]);
            assert(views(fields@).push(current@) =~= before.update(
                before.len() - 1,
                before.last().push(s@[k as int]),
            ));
        }
        k = k + 1;
    }
    fields.push(current);
    assert(s@.take(s.len() as int) =~= s@);
    assert(views(fields@) =~= split_on(s@, sep));
    fields
}

/// The fields joined with `sep` between each two, as `join` puts them
/// together.
pub fn join_fields(fields: &Vec<Vec<char>>, sep: char) -> (out: Vec<char>)
    ensures
        out@ == join_with(views(fields@), sep),
{
    let mut out: Vec<char> = Vec::new();
    let mut k: usize = 0;
    while k < fields.len()
        invariant
            k <= fields.len(),
            out@ == join_with(views(fields@.take(k as int)), sep),
        decreases fields.len() - k,
    {
        assert(views(fields@.take(k + 1)).drop_last() =~= views(fields@.take(k as int)));
        if k > 0 {
            out.push(sep);
        }
        let field = &fields[k];
        let mut j: usize = 0;
        let ghost start = out@;
        while j < field.len()
            invariant
                j <= field.len(),
                out@ == start + field@.take(j as int),
            decreases field.len() - j,
        {
            out.push(field[j]);
            assert(field@.take(j + 1) =~= field@.take(j as int).push(field@[j as int]));
            j = j + 1;
        }
        assert(field@.take(field.len() as int) =~= field@);
        proof {
            if k == 0 {
                assert(start =~= Seq::<char>::empty());
                assert(out@ =~= views(fields@.take(1))[0]);
            } else {
                assert(views(fields@.take(k + 1)).last() == field@);
            }
        }
        k = k + 1;
    }
    assert(fields@.take(fields.len() as int) =~= fields@);
    out
}

} // verus!
