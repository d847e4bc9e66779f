//! Character-level text handling: the specifications of `str::split`,
//! `str::trim` and `[String]::join` over `Seq<char>`, executable versions
//! of them over `Vec<char>`, and the lemmas that connect them.
use vstd::prelude::*;

verus! {

broadcast use vstd::string::group_string_axioms;

// ---------------------------------------------------------------------------
// Specifications
// ---------------------------------------------------------------------------

/// The Unicode `White_Space` property, which `char::is_whitespace` tests and
/// `str::trim` strips.
pub open spec fn is_space(c: char) -> bool {
    let u = c as u32;
    ||| 0x9 <= u <= 0xd
    ||| u == 0x20
    ||| u == 0x85
    ||| u == 0xa0
    ||| u == 0x1680
    ||| 0x2000 <= u <= 0x200a
    ||| u == 0x2028
    ||| u == 0x2029
    ||| u == 0x202f
    ||| u == 0x205f
    ||| u == 0x3000
}

/// `s` without its leading white space.
pub open spec fn trim_start(s: Seq<char>) -> Seq<char>
    decreases s.len(),
{
    if s.len() > 0 && is_space(s[0]) {
        trim_start(s.drop_first())
    } else {
        s
    }
}

/// `s` without its trailing white space.
pub open spec fn trim_end(s: Seq<char>) -> Seq<char>
    decreases s.len(),
{
    if s.len() > 0 && is_space(s.last()) {
        trim_end(s.drop_last())
    } else {
        s
    }
}

/// `s` without leading and trailing white space (`str::trim`).
pub open spec fn trim(s: Seq<char>) -> Seq<char> {
    trim_end(trim_start(s))
}

/// The pieces of `s` between the occurrences of `sep` (`str::split` with a
/// one-character pattern): one more piece than there are separators.
pub open spec fn split(s: Seq<char>, sep: char) -> Seq<Seq<char>>
    decreases s.len(),
{
    if s.len() == 0 {
        seq![Seq::<char>::empty()]
    } else {
        let pieces = split(s.drop_last(), sep);
        if s.last() == sep {
            pieces.push(Seq::<char>::empty())
        } else {
            pieces.update(pieces.len() - 1, pieces.last().push(s.last()))
        }
    }
}

/// The pieces of `parts` with `sep` between each two of them (`join`).
pub open spec fn join(parts: Seq<Seq<char>>, sep: Seq<char>) -> Seq<char>
    decreases parts.len(),
{
    if parts.len() == 0 {
        Seq::<char>::empty()
    } else if parts.len() == 1 {
        parts[0]
    } else {
        join(parts.drop_last(), sep) + sep + parts.last()
    }
}

/// Each piece trimmed.
pub open spec fn trim_each(parts: Seq<Seq<char>>) -> Seq<Seq<char>> {
    parts.map_values(|p: Seq<char>| trim(p))
}

// ---------------------------------------------------------------------------
// Executable text operations
// ---------------------------------------------------------------------------

/// The characters of `s`.
pub fn chars_of(s: &str) -> (v: Vec<char>)
    ensures
        v@ == s@,
{
    let mut v: Vec<char> = Vec::new();
    for c in it: s.chars()
        invariant
            v@ == it.seq().take(it.index() as int),
    {
        v.push(c);
    }
    v
}


/// `String::push`: appends one character at the end.
#[verifier::external_body]
pub(crate) fn push_char(s: &mut String, c: char)
    ensures
        final(s)@ == old(s)@.push(c),
{
    s.push(c);
}

/// A `String` holding the characters of `v`.
pub fn string_of(v: &[char]) -> (s: String)
    ensures
        s@ == v@,
{
    let mut s = String::new();
    let mut i: usize = 0;
    while i < v.len()
        invariant
            i <= v@.len(),
            s@ == v@.take(i as int),
        decreases v@.len() - i,
    {
        push_char(&mut s, v[i]);
        i = i + 1;
        assert(s@ == v@.take(i as int));
    }
    assert(v@.take(v@.len() as int) == v@);
    s
}

/// Whether `c` is white space (`char::is_whitespace`).
pub fn is_space_char(c: char) -> (b: bool)
    ensures
        b == is_space(c),
{
    let u = c as u32;
    (0x9 <= u && u <= 0xd) || u == 0x20 || u == 0x85 || u == 0xa0 || u == 0x1680 || (0x2000
        <= u && u <= 0x200a) || u == 0x2028 || u == 0x2029 || u == 0x202f || u == 0x205f || u
        == 0x3000
}

/// Whether `a` and `b` hold the same characters.
pub fn same_chars(a: &[char], b: &[char]) -> (r: bool)
    ensures
        r == (a@ == b@),
{
    if a.len() != b.len() {
        return false;
    }
    let mut i: usize = 0;
    while i < a.len()
        invariant
            i <= a@.len(),
            a@.len() == b@.len(),
            forall|k: int| 0 <= k < i ==> a@[k] == b@[k],
        decreases a@.len() - i,
    {
        if a[i] != b[i] {
            return false;
        }
        i = i + 1;
    }
    assert(a@ =~= b@);
    true
}

/// Whether `c` occurs in `v`.
pub fn has_char(v: &[char], c: char) -> (r: bool)
    ensures
        r == v@.contains(c),
{
    let mut i: usize = 0;
    while i < v.len()
        invariant
            i <= v@.len(),
            forall|k: int| 0 <= k < i ==> v@[k] != c,
        decreases v@.len() - i,
    {
        if v[i] == c {
            return true;
        }
        i = i + 1;
    }
    false
}

/// The characters of `v` from `start` up to `end`.
pub fn copy_range(v: &[char], start: usize, end: usize) -> (r: Vec<char>)
    requires
        start <= end <= v@.len(),
    ensures
        r@ == v@.subrange(start as int, end as int),
{
    let mut r: Vec<char> = Vec::new();
    let mut i: usize = start;
    while i < end
        invariant
            start <= i <= end <= v@.len(),
            r@ == v@.subrange(start as int, i as int),
        decreases end - i,
    {
        r.push(v[i]);
        i = i + 1;
        assert(r@ == v@.subrange(start as int, i as int));
    }
    r
}

/// `v` without leading and trailing white space (`str::trim`).
pub fn trim_chars(v: &[char]) -> (r: Vec<char>)
    ensures
        r@ == trim(v@),
{
    let n = v.len();
    let mut i: usize = 0;
    assert(v@.skip(0) == v@);
    while i < n && is_space_char(v[i])
        invariant
            i <= n == v@.len(),
            trim_start(v@) == trim_start(v@.skip(i as int)),
        decreases n - i,
    {
        assert(v@.skip(i as int).drop_first() == v@.skip(i + 1));
        i = i + 1;
    }
    assert(trim_start(v@) == v@.skip(i as int));
    let mut j: usize = n;
    while j > i && is_space_char(v[j - 1])
        invariant
            i <= j <= n == v@.len(),
            trim_end(v@.skip(i as int)) == trim_end(v@.subrange(i as int, j as int)),
        decreases j,
    {
        assert(v@.subrange(i as int, j as int).drop_last() == v@.subrange(i as int, j - 1));
        j = j - 1;
    }
    assert(v@.skip(i as int) == v@.subrange(i as int, n as int));
    copy_range(v, i, j)
}

/// The pieces of `v` between the occurrences of `sep` (`str::split`).
pub fn split_chars(v: &[char], sep: char) -> (pieces: Vec<Vec<char>>)
    ensures
        pieces.deep_view() == split(v@, sep),
{
    let mut done: Vec<Vec<char>> = Vec::new();
    let mut cur: Vec<char> = Vec::new();
    let mut i: usize = 0;
    while i < v.len()
        invariant
            i <= v@.len(),
            split(v@.take(i as int), sep) == done.deep_view().push(cur@),
        decreases v@.len() - i,
    {
        let ghost before = done.deep_view();
        assert(v@.take(i + 1).drop_last() == v@.take(i as int));
        if v[i] == sep {
            let piece = cur;
            assert(piece.deep_view() == piece@);
            done.push(piece);
            cur = Vec::new();
            assert(done.deep_view() == before.push(piece@));
        } else {
            cur.push(v[i]);
            assert(done.deep_view() == before);
        }
        i = i + 1;
        assert(split(v@.take(i as int), sep) == done.deep_view().push(cur@));
    }
    assert(v@.take(v@.len() as int) == v@);
    let ghost before = done.deep_view();
    assert(cur.deep_view() == cur@);
    done.push(cur);
    assert(done.deep_view() == before.push(cur@));
    done
}

/// The pieces of `v` between the occurrences of `sep`, as strings.
pub fn pieces_of(v: &[char], sep: char) -> (strings: Vec<String>)
    ensures
        strings.deep_view() == split(v@, sep),
{
    let pieces = split_chars(v, sep);
    let ghost pieces_view = pieces.deep_view();
    let mut strings: Vec<String> = Vec::new();
    let mut i: usize = 0;
    while i < pieces.len()
        invariant
            i <= pieces@.len(),
            pieces_view == pieces.deep_view(),
            pieces_view == split(v@, sep),
            strings.deep_view() == pieces_view.take(i as int),
        decreases pieces@.len() - i,
    {
        assert(pieces.deep_view()[i as int] =~= pieces@[i as int]@);
        let piece = string_of(&pieces[i]);
        let ghost before = strings.deep_view();
        strings.push(piece);
        assert(strings.deep_view() =~= before.push(piece@));
        i = i + 1;
        assert(strings.deep_view() =~= pieces_view.take(i as int));
    }
    assert(pieces_view.take(pieces@.len() as int) =~= pieces_view);
    strings
}

/// The pieces of `v` between the occurrences of `sep`, each trimmed, as
/// strings.
pub fn trimmed_pieces_of(v: &[char], sep: char) -> (strings: Vec<String>)
    ensures
        strings.deep_view() == trim_each(split(v@, sep)),
{
    let pieces = split_chars(v, sep);
    let ghost pieces_view = pieces.deep_view();
    let mut strings: Vec<String> = Vec::new();
    let mut i: usize = 0;
    while i < pieces.len()
        invariant
            i <= pieces@.len(),
            pieces_view == pieces.deep_view(),
            pieces_view == split(v@, sep),
            strings.deep_view() == trim_each(pieces_view).take(i as int),
        decreases pieces@.len() - i,
    {
        assert(pieces.deep_view()[i as int] =~= pieces@[i as int]@);
        let piece = string_of(&trim_chars(&pieces[i]));
        let ghost before = strings.deep_view();
        strings.push(piece);
        assert(strings.deep_view() =~= before.push(piece@));
        i = i + 1;
        assert(strings.deep_view() =~= trim_each(pieces_view).take(i as int));
    }
    assert(trim_each(pieces_view).take(pieces@.len() as int) =~= trim_each(pieces_view));
    strings
}

/// The strings of `parts` with `sep` between each two of them (`join`).
pub fn join_strings(parts: &Vec<String>, sep: &str) -> (s: String)
    ensures
        s@ == join(parts.deep_view(), sep@),
{
    let mut s = String::new();
    let mut i: usize = 0;
    while i < parts.len()
        invariant
            i <= parts@.len(),
            s@ == join(parts.deep_view().take(i as int), sep@),
        decreases parts@.len() - i,
    {
        let ghost prefix = parts.deep_view().take(i + 1);
        assert(prefix.drop_last() == parts.deep_view().take(i as int));
        if i > 0 {
            s.append(sep);
        }
        s.append(parts[i].as_str());
        i = i + 1;
    }
    assert(parts.deep_view().take(parts@.len() as int) == parts.deep_view());
    s
}


// ---------------------------------------------------------------------------
// Lemmas
// ---------------------------------------------------------------------------

/// The deep view of a vector of characters is its view.
pub proof fn lemma_chars_deep_view(v: &Vec<char>)
    ensures
        v.deep_view() == v@,
{
    assert(v.deep_view() =~= v@);
}

/// Splitting always gives at least one piece.
pub proof fn lemma_split_len(s: Seq<char>, sep: char)
    ensures
        split(s, sep).len() >= 1,
    decreases s.len(),
{
    if s.len() > 0 {
        lemma_split_len(s.drop_last(), sep);
    }
}

/// Text without the separator splits into itself alone.
pub proof fn lemma_split_without_sep(s: Seq<char>, sep: char)
    requires
        !s.contains(sep),
    ensures
        split(s, sep) == seq![s],
    decreases s.len(),
{
    if s.len() > 0 {
        let front = s.drop_last();
        assert forall|k: int| 0 <= k < front.len() implies front[k] != sep by {
            assert(front[k] == s[k]);
        }
        lemma_split_without_sep(front, sep);
        assert(s[s.len() - 1] == s.last());
        assert(s.last() != sep);
        assert(front.push(s.last()) =~= s);
        assert(seq![front].update(0, front.push(s.last())) =~= seq![s]);
    } else {
        assert(s =~= Seq::<char>::empty());
    }
}

/// Splitting at one separator splits both sides apart.
pub proof fn lemma_split_concat(a: Seq<char>, b: Seq<char>, sep: char)
    ensures
        split(a + seq![sep] + b, sep) == split(a, sep) + split(b, sep),
    decreases b.len(),
{
    let s = a + seq![sep] + b;
    if b.len() == 0 {
        assert(s.drop_last() =~= a);
        assert(split(a, sep).push(Seq::<char>::empty()) =~= split(a, sep) + split(b, sep));
    } else {
        let front = b.drop_last();
        assert(s.drop_last() =~= a + seq![sep] + front);
        lemma_split_concat(a, front, sep);
        lemma_split_len(front, sep);
        let left = split(a, sep);
        let right = split(front, sep);
        if b.last() == sep {
            assert((left + right).push(Seq::<char>::empty()) =~= left + right.push(
                Seq::<char>::empty(),
            ));
        } else {
            let r = left + right;
            assert(r.update(r.len() - 1, r.last().push(b.last())) =~= left + right.update(
                right.len() - 1,
                right.last().push(b.last()),
            ));
        }
    }
}

/// Text without `c` followed by text without `c` holds no `c`.
pub proof fn lemma_concat_without(a: Seq<char>, b: Seq<char>, c: char)
    requires
        !a.contains(c),
        !b.contains(c),
    ensures
        !(a + b).contains(c),
{
    assert forall|k: int| 0 <= k < (a + b).len() implies (a + b)[k] != c by {
        if k < a.len() {
            assert((a + b)[k] == a[k]);
        } else {
            assert((a + b)[k] == b[k - a.len()]);
        }
    }
}

/// The pieces of a split hold neither the separator nor a character that the
/// text does not hold.
pub proof fn lemma_split_pieces_without(s: Seq<char>, sep: char, c: char)
    requires
        c == sep || !s.contains(c),
    ensures
        forall|i: int|
            0 <= i < split(s, sep).len() ==> !(#[trigger] split(s, sep)[i]).contains(c),
    decreases s.len(),
{
    if s.len() == 0 {
        assert forall|i: int|
            0 <= i < split(s, sep).len() implies !(#[trigger] split(s, sep)[i]).contains(c) by {
            assert(split(s, sep)[i] =~= Seq::<char>::empty());
        }
    } else {
        let front = s.drop_last();
        if c != sep {
            assert forall|k: int| 0 <= k < front.len() implies front[k] != c by {
                assert(front[k] == s[k]);
            }
        }
        lemma_split_pieces_without(front, sep, c);
        lemma_split_len(front, sep);
        let r = split(front, sep);
        let x = s.last();
        assert(x != sep ==> x != c) by {
            if c != sep {
                assert(s[s.len() - 1] == x);
            }
        }
        if x != sep {
            let piece = r.last().push(x);
            assert(!r[r.len() - 1].contains(c));
            assert forall|k: int| 0 <= k < piece.len() implies piece[k] != c by {
                if k < r.last().len() {
                    assert(piece[k] == r.last()[k]);
                }
            }
        }
        assert forall|i: int|
            0 <= i < split(s, sep).len() implies !(#[trigger] split(s, sep)[i]).contains(c) by {
            if i < r.len() && !(x != sep && i == r.len() - 1) {
                assert(split(s, sep)[i] == r[i]);
            } else if x == sep {
                assert(split(s, sep)[i] =~= Seq::<char>::empty());
            }
        }
    }
}

/// A text that does not start with the separator splits into a first piece
/// that starts as the text does.
pub proof fn lemma_split_first(s: Seq<char>, sep: char)
    requires
        s.len() > 0,
        s[0] != sep,
    ensures
        split(s, sep)[0].len() > 0,
        split(s, sep)[0][0] == s[0],
    decreases s.len(),
{
    let front = s.drop_last();
    lemma_split_len(front, sep);
    if s.len() > 1 {
        assert(front[0] == s[0]);
        lemma_split_first(front, sep);
    } else {
        assert(front =~= Seq::<char>::empty());
        assert(s.last() == s[0]);
    }
}

/// A text that does not end with the separator splits into a last piece
/// that ends as the text does.
pub proof fn lemma_split_last(s: Seq<char>, sep: char)
    requires
        s.len() > 0,
        s.last() != sep,
    ensures
        split(s, sep).last().len() > 0,
        split(s, sep).last().last() == s.last(),
{
    lemma_split_len(s.drop_last(), sep);
}

/// The front-trimmed text is a suffix of the text that does not start with
/// white space.
pub proof fn lemma_trim_start_shape(s: Seq<char>) -> (k: int)
    ensures
        0 <= k <= s.len(),
        trim_start(s) == s.subrange(k, s.len() as int),
        trim_start(s).len() > 0 ==> !is_space(trim_start(s)[0]),
        forall|j: int| 0 <= j < k ==> is_space(#[trigger] s[j]),
    decreases s.len(),
{
    if s.len() > 0 && is_space(s[0]) {
        let k = lemma_trim_start_shape(s.drop_first());
        assert(s.drop_first().subrange(k, s.len() - 1) =~= s.subrange(k + 1, s.len() as int));
        assert forall|j: int| 0 <= j < k + 1 implies is_space(#[trigger] s[j]) by {
            if j > 0 {
                assert(s[j] == s.drop_first()[j - 1]);
            }
        }
        k + 1
    } else {
        assert(s.subrange(0, s.len() as int) =~= s);
        0
    }
}

/// The end-trimmed text is a prefix of the text that does not end with white
/// space.
pub proof fn lemma_trim_end_shape(s: Seq<char>) -> (m: int)
    ensures
        0 <= m <= s.len(),
        trim_end(s) == s.subrange(0, m),
        trim_end(s).len() > 0 ==> !is_space(trim_end(s).last()),
        forall|j: int| m <= j < s.len() ==> is_space(#[trigger] s[j]),
    decreases s.len(),
{
    if s.len() > 0 && is_space(s.last()) {
        let m = lemma_trim_end_shape(s.drop_last());
        assert(s.drop_last().subrange(0, m) =~= s.subrange(0, m));
        assert forall|j: int| m <= j < s.len() implies is_space(#[trigger] s[j]) by {
            if j < s.len() - 1 {
                assert(s[j] == s.drop_last()[j]);
            }
        }
        m
    } else {
        assert(s.subrange(0, s.len() as int) =~= s);
        s.len() as int
    }
}

/// The trimmed text is a part of the text with no white space at either end.
pub proof fn lemma_trim_shape(s: Seq<char>) -> (r: (int, int))
    ensures
        0 <= r.0 <= r.1 <= s.len(),
        trim(s) == s.subrange(r.0, r.1),
        trim(s).len() > 0 ==> !is_space(trim(s)[0]) && !is_space(trim(s).last()),
{
    let k = lemma_trim_start_shape(s);
    let t = trim_start(s);
    let m = lemma_trim_end_shape(t);
    assert(t.subrange(0, m) =~= s.subrange(k, k + m));
    if m > 0 {
        assert(trim(s)[0] == t[0]);
    }
    (k, k + m)
}

/// Every character of `w` is white space.
pub open spec fn all_space(w: Seq<char>) -> bool {
    forall|i: int| 0 <= i < w.len() ==> is_space(#[trigger] w[i])
}

/// White space holds neither `:` nor `;`.
pub proof fn lemma_all_space_plain(w: Seq<char>)
    requires
        all_space(w),
    ensures
        !w.contains(':'),
        !w.contains(';'),
{
    assert forall|i: int| 0 <= i < w.len() implies w[i] != ':' && w[i] != ';' by {
        assert(is_space(w[i]));
    }
}

/// A text that holds something other than white space does not trim to
/// nothing.
pub proof fn lemma_trim_nonblank(s: Seq<char>, i: int)
    requires
        0 <= i < s.len(),
        !is_space(s[i]),
    ensures
        trim(s).len() > 0,
{
    let k = lemma_trim_start_shape(s);
    assert(k <= i);
    let t = trim_start(s);
    assert(t[i - k] == s[i]);
    let m = lemma_trim_end_shape(t);
    assert(m > i - k);
}

/// White space around a text does not change the trimmed text.
pub proof fn lemma_trim_padded(before: Seq<char>, s: Seq<char>, after: Seq<char>)
    requires
        all_space(before),
        all_space(after),
    ensures
        trim(before + s + after) == trim(s),
    decreases before.len() + after.len(),
{
    if before.len() > 0 {
        let rest = before.drop_first();
        assert forall|i: int| 0 <= i < rest.len() implies is_space(#[trigger] rest[i]) by {
            assert(rest[i] == before[i + 1]);
        }
        lemma_trim_padded(rest, s, after);
        assert(is_space(before[0]));
        assert(before + s + after =~= seq![before[0]] + (rest + s + after));
        lemma_trim_after_space(before[0], rest + s + after);
    } else if after.len() > 0 {
        let front = after.drop_last();
        assert forall|i: int| 0 <= i < front.len() implies is_space(#[trigger] front[i]) by {
            assert(front[i] == after[i]);
        }
        lemma_trim_padded(before, s, front);
        assert(is_space(after[after.len() - 1]));
        assert(before + s + after =~= (before + s + front) + seq![after.last()]);
        lemma_trim_before_space(before + s + front, after.last());
    } else {
        assert(before + s + after =~= s);
    }
}

/// Trimming twice is trimming once.
pub proof fn lemma_trim_idempotent(s: Seq<char>)
    ensures
        trim(trim(s)) == trim(s),
{
    lemma_trim_shape(s);
    lemma_trim_clean(trim(s));
}

/// Trimming adds no character.
pub proof fn lemma_trim_without(s: Seq<char>, c: char)
    requires
        !s.contains(c),
    ensures
        !trim(s).contains(c),
{
    let r = lemma_trim_shape(s);
    assert forall|k: int| 0 <= k < trim(s).len() implies trim(s)[k] != c by {
        assert(trim(s)[k] == s[r.0 + k]);
    }
}

/// Trimming the front of a text that ends with something other than white
/// space keeps that last character.
pub proof fn lemma_trim_start_keeps_last(s: Seq<char>)
    requires
        s.len() > 0,
        !is_space(s.last()),
    ensures
        trim_start(s).len() > 0,
        trim_start(s).last() == s.last(),
    decreases s.len(),
{
    if is_space(s[0]) {
        assert(s.len() > 1);
        assert(s.drop_first().last() == s.last());
        lemma_trim_start_keeps_last(s.drop_first());
    }
}

/// A text that ends with something other than white space keeps at least
/// one character when trimmed.
pub proof fn lemma_trim_keeps_last(s: Seq<char>)
    requires
        s.len() > 0,
        !is_space(s.last()),
    ensures
        trim(s).len() > 0,
{
    lemma_trim_start_keeps_last(s);
}

/// A joined text holds a character only where a piece or the separator does.
pub proof fn lemma_join_without(parts: Seq<Seq<char>>, sep: Seq<char>, c: char)
    requires
        forall|i: int| 0 <= i < parts.len() ==> !(#[trigger] parts[i]).contains(c),
        !sep.contains(c),
    ensures
        !join(parts, sep).contains(c),
    decreases parts.len(),
{
    if parts.len() == 1 {
        assert(!parts[0].contains(c));
    } else if parts.len() > 1 {
        let front = parts.drop_last();
        assert forall|i: int| 0 <= i < front.len() implies !(#[trigger] front[i]).contains(c) by {
            assert(front[i] == parts[i]);
        }
        lemma_join_without(front, sep, c);
        let x = join(front, sep);
        let y = parts.last();
        assert(!y.contains(c)) by {
            assert(y == parts[parts.len() - 1]);
        }
        let j = x + sep + y;
        assert forall|k: int| 0 <= k < j.len() implies j[k] != c by {
            if k < x.len() {
                assert(j[k] == x[k]);
            } else if k < x.len() + sep.len() {
                assert(j[k] == sep[k - x.len()]);
            } else {
                assert(j[k] == y[k - x.len() - sep.len()]);
            }
        }
    }
}

/// Splitting a text joined with a one-character separator gives back its
/// pieces, when no piece holds that character.
pub proof fn lemma_split_join(parts: Seq<Seq<char>>, sep: char)
    requires
        parts.len() >= 1,
        forall|i: int| 0 <= i < parts.len() ==> !(#[trigger] parts[i]).contains(sep),
    ensures
        split(join(parts, seq![sep]), sep) == parts,
    decreases parts.len(),
{
    if parts.len() == 1 {
        lemma_split_without_sep(parts[0], sep);
        assert(seq![parts[0]] =~= parts);
    } else {
        let front = parts.drop_last();
        assert forall|i: int| 0 <= i < front.len() implies !(#[trigger] front[i]).contains(sep) by {
            assert(front[i] == parts[i]);
        }
        lemma_split_join(front, sep);
        let last = parts.last();
        assert(!last.contains(sep)) by {
            assert(last == parts[parts.len() - 1]);
        }
        lemma_split_concat(join(front, seq![sep]), last, sep);
        lemma_split_without_sep(last, sep);
        assert(front + seq![last] =~= parts);
    }
}

/// The pieces of `parts`, every one but the first preceded by `lead`.
pub open spec fn led(parts: Seq<Seq<char>>, lead: Seq<char>) -> Seq<Seq<char>> {
    Seq::new(parts.len(), |i: int| if i == 0 { parts[0] } else { lead + parts[i] })
}

/// Splitting a text joined with the separator `sep` followed by `lead` at
/// `sep` gives back the pieces, every one but the first preceded by `lead`,
/// when neither the pieces nor `lead` hold `sep`.
pub proof fn lemma_split_join_led(parts: Seq<Seq<char>>, sep: char, lead: Seq<char>)
    requires
        parts.len() >= 1,
        forall|i: int| 0 <= i < parts.len() ==> !(#[trigger] parts[i]).contains(sep),
        !lead.contains(sep),
    ensures
        split(join(parts, seq![sep] + lead), sep) == led(parts, lead),
    decreases parts.len(),
{
    if parts.len() == 1 {
        lemma_split_without_sep(parts[0], sep);
        assert(seq![parts[0]] =~= led(parts, lead));
    } else {
        let front = parts.drop_last();
        assert forall|i: int| 0 <= i < front.len() implies !(#[trigger] front[i]).contains(sep) by {
            assert(front[i] == parts[i]);
        }
        lemma_split_join_led(front, sep, lead);
        let last = parts.last();
        assert(!last.contains(sep)) by {
            assert(last == parts[parts.len() - 1]);
        }
        let tail = lead + last;
        assert forall|k: int| 0 <= k < tail.len() implies tail[k] != sep by {
            if k < lead.len() {
                assert(tail[k] == lead[k]);
            } else {
                assert(tail[k] == last[k - lead.len()]);
            }
        }
        let jf = join(front, seq![sep] + lead);
        assert(join(parts, seq![sep] + lead) =~= jf + seq![sep] + tail);
        lemma_split_concat(jf, tail, sep);
        lemma_split_without_sep(tail, sep);
        assert(led(front, lead) + seq![tail] =~= led(parts, lead));
    }
}

/// A joined text starts with the first piece.
pub proof fn lemma_join_first(parts: Seq<Seq<char>>, sep: Seq<char>)
    requires
        parts.len() >= 1,
    ensures
        join(parts, sep).len() >= parts[0].len(),
        forall|k: int| 0 <= k < parts[0].len() ==> join(parts, sep)[k] == parts[0][k],
    decreases parts.len(),
{
    if parts.len() > 1 {
        let front = parts.drop_last();
        lemma_join_first(front, sep);
        assert(front[0] == parts[0]);
    }
}

/// A joined text ends with the last piece.
pub proof fn lemma_join_last(parts: Seq<Seq<char>>, sep: Seq<char>)
    requires
        parts.len() >= 1,
        parts.last().len() > 0,
    ensures
        join(parts, sep).len() > 0,
        join(parts, sep).last() == parts.last().last(),
{
}

/// Trimming never lengthens.
pub proof fn lemma_trim_len(s: Seq<char>)
    ensures
        trim_start(s).len() <= s.len(),
        trim_end(s).len() <= s.len(),
        trim(s).len() <= s.len(),
    decreases s.len(),
{
    if s.len() > 0 {
        lemma_trim_len(s.drop_first());
        lemma_trim_len(s.drop_last());
    }
    lemma_trim_end_len(trim_start(s));
}

/// Trimming the end never lengthens.
pub proof fn lemma_trim_end_len(s: Seq<char>)
    ensures
        trim_end(s).len() <= s.len(),
    decreases s.len(),
{
    if s.len() > 0 {
        lemma_trim_end_len(s.drop_last());
    }
}

/// A text with no white space at either end trims to itself.
pub proof fn lemma_trim_clean(s: Seq<char>)
    requires
        s.len() > 0 ==> !is_space(s[0]) && !is_space(s.last()),
    ensures
        trim(s) == s,
{
}

/// A text that trims to itself has no white space at either end.
pub proof fn lemma_trimmed_ends(s: Seq<char>)
    requires
        trim(s) == s,
        s.len() > 0,
    ensures
        !is_space(s[0]),
        !is_space(s.last()),
{
    if is_space(s[0]) {
        lemma_trim_len(s.drop_first());
        lemma_trim_end_len(trim_start(s.drop_first()));
        assert(false);
    }
    if is_space(s.last()) {
        lemma_trim_end_len(s.drop_last());
        assert(false);
    }
}

/// White space in front does not change the trimmed text.
pub proof fn lemma_trim_after_space(c: char, s: Seq<char>)
    requires
        is_space(c),
    ensures
        trim_start(seq![c] + s) == trim_start(s),
        trim(seq![c] + s) == trim(s),
{
    assert((seq![c] + s).drop_first() =~= s);
}

/// Trimming the front of a concatenation.
pub proof fn lemma_trim_start_concat(s: Seq<char>, t: Seq<char>)
    ensures
        trim_start(s + t) == (if trim_start(s).len() > 0 {
            trim_start(s) + t
        } else {
            trim_start(t)
        }),
    decreases s.len(),
{
    if s.len() == 0 {
        assert(s + t =~= t);
    } else if is_space(s[0]) {
        assert((s + t).drop_first() =~= s.drop_first() + t);
        lemma_trim_start_concat(s.drop_first(), t);
    }
}

/// White space at the end does not change the trimmed text.
pub proof fn lemma_trim_before_space(s: Seq<char>, c: char)
    requires
        is_space(c),
    ensures
        trim(s + seq![c]) == trim(s),
{
    lemma_trim_start_concat(s, seq![c]);
    if trim_start(s).len() > 0 {
        assert((trim_start(s) + seq![c]).last() == c);
        assert((trim_start(s) + seq![c]).drop_last() =~= trim_start(s));
    } else {
        assert(seq![c][0] == c);
        assert(seq![c].drop_first() =~= Seq::<char>::empty());
        assert(trim_start(seq![c]) == trim_start(Seq::<char>::empty()));
        assert(trim_start(s) =~= Seq::<char>::empty());
    }
}

/// A text that starts with something other than white space keeps at least
/// one character when trimmed.
pub proof fn lemma_trim_keeps_first(s: Seq<char>)
    requires
        s.len() > 0,
        !is_space(s[0]),
    ensures
        trim(s).len() > 0,
{
    lemma_trim_end_keeps_first(s);
}

/// Trimming the end of a text that starts with something other than white
/// space keeps that first character.
pub proof fn lemma_trim_end_keeps_first(s: Seq<char>)
    requires
        s.len() > 0,
        !is_space(s[0]),
    ensures
        trim_end(s).len() > 0,
    decreases s.len(),
{
    if s.len() > 1 && is_space(s.last()) {
        assert(s.drop_last()[0] == s[0]);
        lemma_trim_end_keeps_first(s.drop_last());
    }
}

} // verus!
