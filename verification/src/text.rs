//! Character sequences: trimming, searching, splitting and joining.
//!
//! Every executable function here works on `Vec<char>` and is specified over
//! `Seq<char>` by a spec function of the same shape.

use vstd::prelude::*;

verus! {

/// The characters that count as blank space around a line or a field.
pub open spec fn is_space(c: char) -> bool {
    c == ' ' || c == '\t' || c == '\r' || c == '\n'
}

/// The part of `s` that is left when leading blank space is removed.
pub open spec fn trim_start(s: Seq<char>) -> Seq<char>
    decreases s.len(),
{
    if s.len() > 0 && is_space(s[0]) {
        trim_start(s.skip(1))
    } else {
        s
    }
}

/// The part of `s` that is left when trailing blank space is removed.
pub open spec fn trim_end(s: Seq<char>) -> Seq<char>
    decreases s.len(),
{
    if s.len() > 0 && is_space(s.last()) {
        trim_end(s.drop_last())
    } else {
        s
    }
}

/// `s` without blank space at either end.
pub open spec fn trim(s: Seq<char>) -> Seq<char> {
    trim_end(trim_start(s))
}

/// The index of the first `c` in `s`, or `s.len()` where `s` holds none.
pub open spec fn index_of(s: Seq<char>, c: char) -> int
    decreases s.len(),
{
    if s.len() == 0 {
        0
    } else if s[0] == c {
        0
    } else {
        1 + index_of(s.skip(1), c)
    }
}

/// The fields of `s` between occurrences of `sep`. A sequence without `sep`
/// is one field, so the result is never empty.
pub open spec fn split(s: Seq<char>, sep: char) -> Seq<Seq<char>>
    decreases s.len(),
{
    let i = index_of(s, sep);
    if 0 <= i < s.len() {
        seq![s.take(i)] + split(s.skip(i + 1), sep)
    } else {
        seq![s]
    }
}

/// The fields of `parts` written one after the other with `sep` between them.
pub open spec fn join(parts: Seq<Seq<char>>, sep: Seq<char>) -> Seq<char>
    decreases parts.len(),
{
    if parts.len() == 0 {
        Seq::empty()
    } else if parts.len() == 1 {
        parts[0]
    } else {
        parts[0] + sep + join(parts.skip(1), sep)
    }
}

/// Whether `pat` stands in `s` at index `at`.
pub open spec fn occurs_at(s: Seq<char>, pat: Seq<char>, at: int) -> bool {
    0 <= at && at + pat.len() <= s.len() && s.subrange(at, at + pat.len()) == pat
}

/// Whether `pat` stands somewhere in `s`.
pub open spec fn contains(s: Seq<char>, pat: Seq<char>) -> bool {
    exists|at: int| occurs_at(s, pat, at)
}

/// Whether `s` begins with `pat`.
pub open spec fn starts_with(s: Seq<char>, pat: Seq<char>) -> bool {
    occurs_at(s, pat, 0)
}

/// The views of a vector of character vectors.
pub open spec fn views(v: Seq<Vec<char>>) -> Seq<Seq<char>> {
    Seq::new(v.len(), |i: int| v[i]@)
}

/// `index_of` is the least index that holds `c`, or the length.
pub proof fn lemma_index_of(s: Seq<char>, c: char)
    ensures
        0 <= index_of(s, c) <= s.len(),
        forall|k: int| 0 <= k < index_of(s, c) ==> s[k] != c,
        index_of(s, c) < s.len() ==> s[index_of(s, c)] == c,
    decreases s.len(),
{
    if s.len() > 0 && s[0] != c {
        let t = s.skip(1);
        lemma_index_of(t, c);
        assert forall|k: int| 0 <= k < index_of(s, c) implies s[k] != c by {
            if k > 0 {
                assert(s[k] == t[k - 1]);
            }
        }
        assert(index_of(s, c) < s.len() ==> s[index_of(s, c)] == t[index_of(t, c)]);
    }
}

/// An index that holds the first `c` of `s`, or the length of a sequence
/// without `c`, is `index_of(s, c)`.
pub proof fn lemma_index_of_unique(s: Seq<char>, c: char, j: int)
    requires
        0 <= j <= s.len(),
        forall|k: int| 0 <= k < j ==> s[k] != c,
        j < s.len() ==> s[j] == c,
    ensures
        index_of(s, c) == j,
{
    lemma_index_of(s, c);
    let i = index_of(s, c);
    if i < j {
        assert(s[i] != c);
    } else if j < i {
        assert(s[j] != c);
    }
}

/// Adding one more field to a join of at least one field.
pub proof fn lemma_join_push(parts: Seq<Seq<char>>, sep: Seq<char>, last: Seq<char>)
    requires
        parts.len() > 0,
    ensures
        join(parts.push(last), sep) == join(parts, sep) + sep + last,
    decreases parts.len(),
{
    let all = parts.push(last);
    assert(all.skip(1) =~= parts.skip(1).push(last));
    if parts.len() == 1 {
        assert(all.skip(1) =~= seq![last]);
        assert(join(all.skip(1), sep) == last);
        assert(join(all, sep) =~= parts[0] + sep + last);
    } else {
        lemma_join_push(parts.skip(1), sep, last);
        assert(join(all, sep) =~= parts[0] + sep + (join(parts.skip(1), sep) + sep + last));
        assert(join(all, sep) =~= join(parts, sep) + sep + last);
    }
}

/// The number of blank characters at the start of `s`.
pub open spec fn lead(s: Seq<char>) -> int
    decreases s.len(),
{
    if s.len() > 0 && is_space(s[0]) {
        1 + lead(s.skip(1))
    } else {
        0
    }
}

/// The number of blank characters at the end of `s`.
pub open spec fn trail(s: Seq<char>) -> int
    decreases s.len(),
{
    if s.len() > 0 && is_space(s.last()) {
        1 + trail(s.drop_last())
    } else {
        0
    }
}

/// `trim_start` drops the leading blank characters and nothing else.
pub proof fn lemma_trim_start(s: Seq<char>)
    ensures
        0 <= lead(s) <= s.len(),
        trim_start(s) == s.skip(lead(s)),
        lead(s) < s.len() ==> !is_space(s[lead(s)]),
    decreases s.len(),
{
    if s.len() > 0 && is_space(s[0]) {
        let t = s.skip(1);
        lemma_trim_start(t);
        assert(t.skip(lead(t)) =~= s.skip(lead(s)));
        if lead(s) < s.len() {
            assert(t[lead(t)] == s[lead(s)]);
        }
    } else {
        assert(s.skip(0) =~= s);
    }
}

/// `trim_end` drops the trailing blank characters and nothing else.
pub proof fn lemma_trim_end(s: Seq<char>)
    ensures
        0 <= trail(s) <= s.len(),
        trim_end(s) == s.take(s.len() - trail(s)),
        trail(s) < s.len() ==> !is_space(s[s.len() - trail(s) - 1]),
    decreases s.len(),
{
    if s.len() > 0 && is_space(s.last()) {
        let t = s.drop_last();
        lemma_trim_end(t);
        assert(t.take(t.len() - trail(t)) =~= s.take(s.len() - trail(s)));
        if trail(s) < s.len() {
            assert(t[t.len() - trail(t) - 1] == s[s.len() - trail(s) - 1]);
        }
    } else {
        assert(s.take(s.len() as int) =~= s);
    }
}

/// `trim(s)` is a stretch of `s`, and what is left neither begins nor ends
/// with blank space. A sequence that begins with no blank space keeps its
/// beginning.
pub proof fn lemma_trim(s: Seq<char>)
    ensures
        0 <= lead(s) <= lead(s) + trim(s).len() <= s.len(),
        trim(s) == s.subrange(lead(s), lead(s) + trim(s).len()),
        trim(s).len() > 0 ==> !is_space(trim(s)[0]) && !is_space(trim(s).last()),
{
    lemma_trim_start(s);
    let t = s.skip(lead(s));
    lemma_trim_end(t);
    assert(t.take(t.len() - trail(t)) =~= s.subrange(lead(s), lead(s) + (t.len() - trail(t))));
    if trim(s).len() > 0 {
        assert(trim(s)[0] == s[lead(s)]);
        assert(trim(s).last() == t[t.len() - trail(t) - 1]);
    }
}

/// A sequence that neither begins nor ends with blank space is its own trim.
pub proof fn lemma_trim_untouched(s: Seq<char>)
    requires
        s.len() > 0 ==> !is_space(s[0]) && !is_space(s.last()),
    ensures
        trim(s) == s,
{
}

/// `split` gives at least one field.
pub proof fn lemma_split_nonempty(s: Seq<char>, sep: char)
    ensures
        split(s, sep).len() >= 1,
    decreases s.len(),
{
    let i = index_of(s, sep);
    if 0 <= i < s.len() {
        lemma_split_nonempty(s.skip(i + 1), sep);
    }
}

/// Fields without the separator, joined and split again, are the same fields.
pub proof fn lemma_split_join(parts: Seq<Seq<char>>, sep: char)
    requires
        parts.len() >= 1,
        forall|i: int, j: int|
            0 <= i < parts.len() && 0 <= j < parts[i].len() ==> #[trigger] parts[i][j] != sep,
    ensures
        split(join(parts, seq![sep]), sep) == parts,
    decreases parts.len(),
{
    let text = join(parts, seq![sep]);
    if parts.len() == 1 {
        lemma_index_of_unique(text, sep, text.len() as int);
        assert(split(text, sep) =~= parts);
    } else {
        let rest = parts.skip(1);
        assert forall|i: int, j: int|
            0 <= i < rest.len() && 0 <= j < rest[i].len() implies #[trigger] rest[i][j] != sep by {
            assert(rest[i][j] == parts[i + 1][j]);
        }
        lemma_split_join(rest, sep);
        let first = parts[0];
        assert(text == first + seq![sep] + join(rest, seq![sep]));
        assert forall|k: int| 0 <= k < first.len() implies text[k] != sep by {
            assert(text[k] == parts[0][k]);
        }
        lemma_index_of_unique(text, sep, first.len() as int);
        assert(text.take(first.len() as int) =~= first);
        assert(text.skip(first.len() as int + 1) =~= join(rest, seq![sep]));
        assert(split(text, sep) =~= seq![first] + rest);
        assert(seq![first] + rest =~= parts);
    }
}

/// No field of a split holds the separator.
pub proof fn lemma_split_fields(s: Seq<char>, sep: char)
    ensures
        forall|i: int, j: int|
            0 <= i < split(s, sep).len() && 0 <= j < split(s, sep)[i].len() ==> (
            #[trigger] split(s, sep)[i][j]) != sep,
    decreases s.len(),
{
    lemma_index_of(s, sep);
    let cut = index_of(s, sep);
    if 0 <= cut < s.len() {
        let rest = split(s.skip(cut + 1), sep);
        lemma_split_fields(s.skip(cut + 1), sep);
        assert forall|i: int, j: int|
            0 <= i < split(s, sep).len() && 0 <= j < split(s, sep)[i].len() implies (
        #[trigger] split(s, sep)[i][j]) != sep by {
            if i == 0 {
                assert(split(s, sep)[0][j] == s[j]);
            } else {
                assert(split(s, sep)[i] == rest[i - 1]);
                assert(rest[i - 1][j] != sep);
            }
        }
    }
}

/// What holds of every character of the fields and of the separator holds of
/// every character of their join.
pub proof fn lemma_join_chars(parts: Seq<Seq<char>>, sep: Seq<char>, holds: spec_fn(char) -> bool)
    requires
        forall|i: int, j: int|
            0 <= i < parts.len() && 0 <= j < parts[i].len() ==> holds(#[trigger] parts[i][j]),
        forall|j: int| 0 <= j < sep.len() ==> holds(#[trigger] sep[j]),
    ensures
        forall|k: int| 0 <= k < join(parts, sep).len() ==> holds(#[trigger] join(parts, sep)[k]),
    decreases parts.len(),
{
    if parts.len() == 1 {
        assert forall|k: int| 0 <= k < parts[0].len() implies holds(#[trigger] parts[0][k]) by {}
    } else if parts.len() > 1 {
        let rest = parts.skip(1);
        assert forall|i: int, j: int|
            0 <= i < rest.len() && 0 <= j < rest[i].len() implies holds(#[trigger] rest[i][j]) by {
            assert(rest[i][j] == parts[i + 1][j]);
        }
        lemma_join_chars(rest, sep, holds);
        let text = join(parts, sep);
        let tail = join(rest, sep);
        assert forall|k: int| 0 <= k < text.len() implies holds(#[trigger] text[k]) by {
            if k < parts[0].len() {
                assert(text[k] == parts[0][k]);
            } else if k < parts[0].len() + sep.len() {
                assert(text[k] == sep[k - parts[0].len()]);
            } else {
                assert(text[k] == tail[k - parts[0].len() - sep.len()]);
            }
        }
    }
}

/// A join of fields of which the last is not empty is not empty, and ends as
/// its last field ends.
pub proof fn lemma_join_last(parts: Seq<Seq<char>>, sep: Seq<char>)
    requires
        parts.len() >= 1,
        parts.last().len() > 0,
    ensures
        join(parts, sep).len() > 0,
        join(parts, sep).last() == parts.last().last(),
    decreases parts.len(),
{
    if parts.len() > 1 {
        let rest = parts.skip(1);
        assert(rest.last() == parts.last());
        lemma_join_last(rest, sep);
    }
}

/// An occurrence of `pat` in a stretch of `s` is an occurrence in `s`.
pub proof fn lemma_contains_in_stretch(s: Seq<char>, from: int, to: int, pat: Seq<char>)
    requires
        0 <= from <= to <= s.len(),
        contains(s.subrange(from, to), pat),
    ensures
        contains(s, pat),
{
    let part = s.subrange(from, to);
    let at = choose|at: int| occurs_at(part, pat, at);
    assert(s.subrange(from + at, from + at + pat.len()) =~= part.subrange(at, at + pat.len()));
    assert(occurs_at(s, pat, from + at));
}

/// Whether `c` is blank space.
pub fn is_space_char(c: char) -> (b: bool)
    ensures
        b == is_space(c),
{
    c == ' ' || c == '\t' || c == '\r' || c == '\n'
}

/// The characters of `s`, one by one.
pub fn to_chars(s: &str) -> (v: Vec<char>)
    ensures
        v@ == s@,
{
    let mut v: Vec<char> = Vec::new();
    for c in it: s.chars()
        invariant
            v@ == it.seq().take(it.index()),
            it.seq() == s@,
    {
        v.push(c);
    }
    v
}

/// A copy of `s[from..to]`.
pub fn slice_chars(s: &Vec<char>, from: usize, to: usize) -> (r: Vec<char>)
    requires
        from <= to <= s.len(),
    ensures
        r@ == s@.subrange(from as int, to as int),
{
    let mut r: Vec<char> = Vec::new();
    let mut i: usize = from;
    while i < to
        invariant
            from <= i <= to <= s.len(),
            r@ == s@.subrange(from as int, i as int),
        decreases to - i,
    {
        r.push(s[i]);
        i += 1;
    }
    r
}

/// Whether the two vectors hold the same characters.
pub fn same_chars(a: &Vec<char>, b: &Vec<char>) -> (r: bool)
    ensures
        r == (a@ == b@),
{
    if a.len() != b.len() {
        return false;
    }
    let mut i: usize = 0;
    while i < a.len()
        invariant
            a.len() == b.len(),
            i <= a.len(),
            forall|k: int| 0 <= k < i ==> a@[k] == b@[k],
        decreases a.len() - i,
    {
        if a[i] != b[i] {
            return false;
        }
        i += 1;
    }
    assert(a@ =~= b@);
    true
}

/// Whether `s` spells the string `word`.
pub fn spells(s: &Vec<char>, word: &str) -> (r: bool)
    ensures
        r == (s@ == word@),
{
    let w = to_chars(word);
    same_chars(s, &w)
}

/// `s` without blank space at either end.
pub fn trimmed(s: &Vec<char>) -> (r: Vec<char>)
    ensures
        r@ == trim(s@),
{
    let n = s.len();
    let mut a: usize = 0;
    assert(s@.skip(0) =~= s@);
    while a < n && is_space_char(s[a])
        invariant
            a <= n == s.len(),
            trim_start(s@) == trim_start(s@.skip(a as int)),
        decreases n - a,
    {
        assert(s@.skip(a as int).skip(1) =~= s@.skip(a as int + 1));
        a += 1;
    }
    let ghost front = s@.skip(a as int);
    assert(trim_start(s@) == front);
    let mut b: usize = n;
    assert(front =~= s@.subrange(a as int, b as int));
    while b > a && is_space_char(s[b - 1])
        invariant
            a <= b <= n == s.len(),
            trim_end(front) == trim_end(s@.subrange(a as int, b as int)),
        decreases b - a,
    {
        assert(s@.subrange(a as int, b as int).drop_last() =~= s@.subrange(a as int, b as int - 1));
        b -= 1;
    }
    slice_chars(s, a, b)
}

/// The index of the first `c` in `s` at or after `from`, or `s.len()`.
pub fn find_from(s: &Vec<char>, c: char, from: usize) -> (i: usize)
    requires
        from <= s.len(),
    ensures
        from <= i <= s.len(),
        i == from + index_of(s@.skip(from as int), c),
{
    let mut i: usize = from;
    while i < s.len() && s[i] != c
        invariant
            from <= i <= s.len(),
            forall|k: int| from <= k < i ==> s@[k] != c,
        decreases s.len() - i,
    {
        i += 1;
    }
    proof {
        lemma_index_of_unique(s@.skip(from as int), c, i - from);
    }
    i
}

/// The fields of `s` between occurrences of `sep`.
pub fn split_chars(s: &Vec<char>, sep: char) -> (parts: Vec<Vec<char>>)
    ensures
        views(parts@) == split(s@, sep),
        parts.len() >= 1,
{
    let mut parts: Vec<Vec<char>> = Vec::new();
    let mut start: usize = 0;
    assert(s@.skip(0) =~= s@);
    assert(views(parts@) + split(s@, sep) =~= split(s@, sep));
    loop
        invariant_except_break
            start <= s.len(),
            views(parts@) + split(s@.skip(start as int), sep) == split(s@, sep),
        ensures
            views(parts@) == split(s@, sep),
            parts.len() >= 1,
        decreases s.len() - start,
    {
        let end = find_from(s, sep, start);
        let piece = slice_chars(s, start, end);
        let ghost rest = s@.skip(start as int);
        let ghost before = views(parts@);
        proof {
            lemma_index_of(rest, sep);
            assert(piece@ =~= rest.take(end - start));
        }
        parts.push(piece);
        assert(views(parts@) =~= before.push(rest.take(end - start)));
        if end >= s.len() {
            proof {
                assert(rest.take(end - start) =~= rest);
                assert(split(rest, sep) =~= seq![rest]);
                assert(before.push(rest) =~= before + seq![rest]);
            }
            break;
        }
        proof {
            assert(rest.skip(end - start + 1) =~= s@.skip(end as int + 1));
            assert(split(rest, sep) == seq![rest.take(end - start)] + split(
                s@.skip(end as int + 1),
                sep,
            ));
            assert(before.push(rest.take(end - start)) + split(s@.skip(end as int + 1), sep)
                =~= before + split(rest, sep));
        }
        start = end + 1;
    }
    parts
}

/// Whether `pat` stands in `s` at index `at`.
pub fn has_at(s: &Vec<char>, pat: &Vec<char>, at: usize) -> (r: bool)
    ensures
        r == occurs_at(s@, pat@, at as int),
{
    let m = pat.len();
    if m > s.len() || at > s.len() - m {
        return false;
    }
    let mut k: usize = 0;
    while k < m
        invariant
            k <= m == pat.len(),
            at + m <= s.len(),
            forall|j: int| 0 <= j < k ==> s@[at + j] == pat@[j],
        decreases m - k,
    {
        if s[at + k] != pat[k] {
            assert(s@.subrange(at as int, at + m)[k as int] != pat@[k as int]);
            return false;
        }
        k += 1;
    }
    assert(s@.subrange(at as int, at + m) =~= pat@);
    true
}

/// Whether the string `word` stands somewhere in `s`.
pub fn holds(s: &Vec<char>, word: &str) -> (r: bool)
    ensures
        r == contains(s@, word@),
{
    let pat = to_chars(word);
    if has_at(s, &pat, 0) {
        return true;
    }
    let mut at: usize = 0;
    while at < s.len()
        invariant
            at <= s.len(),
            pat@ == word@,
            forall|j: int| 0 <= j <= at ==> !occurs_at(s@, pat@, j),
        decreases s.len() - at,
    {
        at += 1;
        if has_at(s, &pat, at) {
            return true;
        }
    }
    false
}

/// Whether `s` begins with the string `word`.
pub fn begins_with(s: &Vec<char>, word: &str) -> (r: bool)
    ensures
        r == starts_with(s@, word@),
{
    let pat = to_chars(word);
    has_at(s, &pat, 0)
}

} // verus!
