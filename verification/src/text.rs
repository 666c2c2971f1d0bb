//! Artist-name normalization: NFKD decomposition, combining marks stripped,
//! whitespace collapsed to single spaces, and the result lowercased.

use unicode_normalization::UnicodeNormalization;
use vstd::prelude::*;

verus! {

// ---------------------------------------------------------------------------
// Outside behaviour this module builds on.
// ---------------------------------------------------------------------------

/// The Unicode `White_Space` property, which is what `char::is_whitespace` tests:
/// U+0009..U+000D, U+0020, U+0085, U+00A0, U+1680, U+2000..U+200A, U+2028,
/// U+2029, U+202F, U+205F and U+3000.
pub open spec fn is_white_space(c: char) -> bool {
    let u = c as u32;
    ||| 0x09 <= u <= 0x0D
    ||| u == 0x20
    ||| u == 0x85
    ||| u == 0xA0
    ||| u == 0x1680
    ||| 0x2000 <= u <= 0x200A
    ||| u == 0x2028
    ||| u == 0x2029
    ||| u == 0x202F
    ||| u == 0x205F
    ||| u == 0x3000
}

/// The Unicode compatibility decomposition (NFKD) of a character sequence, as
/// `unicode_normalization::UnicodeNormalization::nfkd` produces it.
pub uninterp spec fn nfkd(s: Seq<char>) -> Seq<char>;

/// Whether `unicode_normalization::char::is_combining_mark` holds of a character
/// (the Unicode general category `Mark`).
pub uninterp spec fn combining_mark(c: char) -> bool;

/// The Unicode lowercase mapping of a whole string, as `str::to_lowercase`
/// computes it (some characters map to several, and a final sigma is context
/// dependent, so it is named on the whole sequence).
pub uninterp spec fn lowercase(s: Seq<char>) -> Seq<char>;

/// Whether `c` has the Unicode `White_Space` property (what `char::is_whitespace`
/// tests).
pub(crate) fn char_is_whitespace(c: char) -> (r: bool)
    ensures
        r == is_white_space(c),
{
    let u: u32 = c as u32;
    (0x09 <= u && u <= 0x0D) || u == 0x20 || u == 0x85 || u == 0xA0 || u == 0x1680 || (0x2000
        <= u && u <= 0x200A) || u == 0x2028 || u == 0x2029 || u == 0x202F || u == 0x205F || u
        == 0x3000
}

/// Calls `UnicodeNormalization::nfkd` on `s` and collects the decomposed
/// characters; the result is named `nfkd(s@)`.
#[verifier::external_body]
fn nfkd_chars(s: &str) -> (res: Vec<char>)
    ensures
        res@ == nfkd(s@),
{
    s.nfkd().collect()
}

/// Calls `unicode_normalization::char::is_combining_mark`; the result is named
/// `combining_mark(c)`.
#[verifier::external_body]
fn is_combining_mark(c: char) -> (r: bool)
    ensures
        r == combining_mark(c),
{
    unicode_normalization::char::is_combining_mark(c)
}

/// Calls `str::to_lowercase`; the result is named `lowercase(s@)`.
#[verifier::external_body]
pub(crate) fn to_lowercase(s: &str) -> (res: String)
    ensures
        res@ == lowercase(s@),
{
    s.to_lowercase()
}

/// Collects characters into a `String` (`FromIterator<&char> for String`), which
/// keeps them as they are and in order.
#[verifier::external_body]
pub(crate) fn string_from_chars(v: &Vec<char>) -> (res: String)
    ensures
        res@ == v@,
{
    v.iter().collect()
}

// ---------------------------------------------------------------------------
// The model.
// ---------------------------------------------------------------------------

/// `s` with every combining mark removed.
pub open spec fn strip_marks(s: Seq<char>) -> Seq<char> {
    s.filter(|c: char| !combining_mark(c))
}

/// The maximal runs of non-whitespace characters of `s`, in order
/// (what `str::split_whitespace` yields).
pub open spec fn words(s: Seq<char>) -> Seq<Seq<char>>
    decreases s.len(),
{
    if s.len() == 0 {
        seq![]
    } else {
        let prev = words(s.drop_last());
        let c = s.last();
        if is_white_space(c) {
            prev
        } else if s.len() >= 2 && !is_white_space(s[s.len() - 2]) {
            prev.update(prev.len() - 1, prev.last().push(c))
        } else {
            prev.push(seq![c])
        }
    }
}

/// The parts joined with `sep` between consecutive parts (`[T]::join`).
pub open spec fn join(parts: Seq<Seq<char>>, sep: Seq<char>) -> Seq<char>
    decreases parts.len(),
{
    if parts.len() == 0 {
        seq![]
    } else if parts.len() == 1 {
        parts[0]
    } else {
        join(parts.drop_last(), sep) + sep + parts.last()
    }
}

/// The words of `s` separated by single spaces.
pub open spec fn collapse_whitespace(s: Seq<char>) -> Seq<char> {
    join(words(s), seq![' '])
}

/// The normalized form of an artist name: NFKD, combining marks stripped,
/// whitespace trimmed and collapsed, lowercased.
pub open spec fn normalized_name(s: Seq<char>) -> Seq<char> {
    lowercase(collapse_whitespace(strip_marks(nfkd(s))))
}


/// The character sequences held by a sequence of strings.
pub open spec fn strs(v: Seq<String>) -> Seq<Seq<char>> {
    v.map_values(|x: String| x@)
}

/// The character sequences held by a vector of character vectors.
pub open spec fn char_vecs(v: Seq<Vec<char>>) -> Seq<Seq<char>> {
    v.map_values(|x: Vec<char>| x@)
}

/// Whether `pat` occurs in `s` starting at index `i`.
pub open spec fn occurs_at(s: Seq<char>, pat: Seq<char>, i: int) -> bool {
    0 <= i && i + pat.len() <= s.len() && s.subrange(i, i + pat.len()) == pat
}

/// The pieces of `s` from `start` on, for a non-empty pattern `pat`, when the
/// scan for the leftmost occurrence has reached index `i`.
pub open spec fn split_from(s: Seq<char>, pat: Seq<char>, start: int, i: int) -> Seq<Seq<char>>
    decreases s.len() - i,
{
    if pat.len() == 0 || i + pat.len() > s.len() {
        seq![s.subrange(start, s.len() as int)]
    } else if occurs_at(s, pat, i) {
        seq![s.subrange(start, i)] + split_from(s, pat, i + pat.len(), i + pat.len())
    } else {
        split_from(s, pat, start, i + 1)
    }
}

/// `s` split at the leftmost non-overlapping occurrences of a non-empty pattern
/// (`str::split` with a string pattern).
pub open spec fn split_on(s: Seq<char>, pat: Seq<char>) -> Seq<Seq<char>> {
    split_from(s, pat, 0, 0)
}

/// `s` without its leading whitespace.
pub open spec fn trim_start(s: Seq<char>) -> Seq<char>
    decreases s.len(),
{
    if s.len() > 0 && is_white_space(s[0]) {
        trim_start(s.drop_first())
    } else {
        s
    }
}

/// `s` without its trailing whitespace.
pub open spec fn trim_end(s: Seq<char>) -> Seq<char>
    decreases s.len(),
{
    if s.len() > 0 && is_white_space(s.last()) {
        trim_end(s.drop_last())
    } else {
        s
    }
}

/// `s` without leading and trailing whitespace (`str::trim`).
pub open spec fn trim(s: Seq<char>) -> Seq<char> {
    trim_end(trim_start(s))
}

// ---------------------------------------------------------------------------
// Lemmas.
// ---------------------------------------------------------------------------

/// Every word is non-empty, and the word list is non-empty exactly when the last
/// character read ends a word or an earlier word exists.
proof fn lemma_words_shape(s: Seq<char>)
    ensures
        forall|k: int| 0 <= k < words(s).len() ==> #[trigger] words(s)[k].len() > 0,
        s.len() > 0 && !is_white_space(s.last()) ==> words(s).len() > 0,
    decreases s.len(),
{
    if s.len() > 0 {
        lemma_words_shape(s.drop_last());
        let prev = words(s.drop_last());
        let c = s.last();
        if !is_white_space(c) && s.len() >= 2 && !is_white_space(s[s.len() - 2]) {
            assert(s.drop_last().last() == s[s.len() - 2]);
            assert(prev.len() > 0);
            let w = words(s);
            assert forall|k: int| 0 <= k < w.len() implies #[trigger] w[k].len() > 0 by {
                if k < prev.len() - 1 {
                    assert(w[k] == prev[k]);
                } else {
                    assert(w[k] == prev.last().push(c));
                }
            }
        }
    }
}

proof fn lemma_join_extend_last(parts: Seq<Seq<char>>, sep: Seq<char>, c: char)
    requires
        parts.len() > 0,
    ensures
        join(parts.update(parts.len() - 1, parts.last().push(c)), sep) == join(parts, sep).push(c),
{
    let q = parts.update(parts.len() - 1, parts.last().push(c));
    if parts.len() > 1 {
        assert(q.drop_last() =~= parts.drop_last());
        assert(q.last() == parts.last().push(c));
        assert(join(parts, sep) == join(parts.drop_last(), sep) + sep + parts.last());
        assert(join(q, sep) =~= join(parts, sep).push(c));
    }
}

pub proof fn lemma_join_push(parts: Seq<Seq<char>>, sep: Seq<char>, w: Seq<char>)
    ensures
        join(parts.push(w), sep) == if parts.len() == 0 {
            w
        } else {
            join(parts, sep) + sep + w
        },
{
    assert(parts.push(w).drop_last() =~= parts);
}

proof fn lemma_join_empty_iff(parts: Seq<Seq<char>>, sep: Seq<char>)
    requires
        forall|k: int| 0 <= k < parts.len() ==> #[trigger] parts[k].len() > 0,
    ensures
        (join(parts, sep).len() == 0) <==> (parts.len() == 0),
    decreases parts.len(),
{
    if parts.len() > 1 {
        assert(parts.last().len() > 0);
    } else if parts.len() == 1 {
        assert(parts[0].len() > 0);
    }
}

/// With no occurrence of the pattern from `i` on, the rest of `s` from `start`
/// is one piece.
pub proof fn lemma_split_from_no_occurrence(s: Seq<char>, pat: Seq<char>, start: int, i: int)
    requires
        pat.len() > 0,
        0 <= start <= i <= s.len(),
        forall|k: int| i <= k ==> !#[trigger] occurs_at(s, pat, k),
    ensures
        split_from(s, pat, start, i) == seq![s.subrange(start, s.len() as int)],
    decreases s.len() - i,
{
    if i + pat.len() <= s.len() {
        lemma_split_from_no_occurrence(s, pat, start, i + 1);
    }
}

/// Whitespace in `r` is only single spaces between non-whitespace characters:
/// nothing leading, nothing trailing, no runs.
pub open spec fn well_spaced(r: Seq<char>) -> bool {
    &&& r.len() > 0 ==> !is_white_space(r[0]) && !is_white_space(r.last())
    &&& forall|i: int|
        0 <= i < r.len() && #[trigger] is_white_space(r[i]) ==> r[i] == ' ' && 0 < i < r.len() - 1
            && !is_white_space(r[i - 1]) && !is_white_space(r[i + 1])
}

proof fn lemma_words_no_whitespace(s: Seq<char>)
    ensures
        forall|k: int, j: int|
            0 <= k < words(s).len() && 0 <= j < words(s)[k].len() ==> !is_white_space(
                #[trigger] words(s)[k][j],
            ),
    decreases s.len(),
{
    if s.len() > 0 {
        lemma_words_no_whitespace(s.drop_last());
        lemma_words_shape(s.drop_last());
        let prev = words(s.drop_last());
        let w = words(s);
        let c = s.last();
        if !is_white_space(c) {
            assert forall|k: int, j: int| 0 <= k < w.len() && 0 <= j < w[k].len() implies !is_white_space(
                #[trigger] w[k][j],
            ) by {
                if s.len() >= 2 && !is_white_space(s[s.len() - 2]) {
                    assert(s.drop_last().last() == s[s.len() - 2]);
                    if k < prev.len() - 1 {
                        assert(w[k] == prev[k]);
                    } else {
                        assert(w[k] == prev.last().push(c));
                        if j < prev.last().len() {
                            assert(w[k][j] == prev[prev.len() - 1][j]);
                        }
                    }
                } else {
                    if k < prev.len() {
                        assert(w[k] == prev[k]);
                    }
                }
            }
        }
    }
}

proof fn lemma_join_well_spaced(parts: Seq<Seq<char>>)
    requires
        forall|k: int| 0 <= k < parts.len() ==> #[trigger] parts[k].len() > 0,
        forall|k: int, j: int|
            0 <= k < parts.len() && 0 <= j < parts[k].len() ==> !is_white_space(#[trigger] parts[k][j]),
    ensures
        well_spaced(join(parts, seq![' '])),
    decreases parts.len(),
{
    if parts.len() == 1 {
        let r = join(parts, seq![' ']);
        assert(r == parts[0]);
        assert(!is_white_space(parts[0][0]));
        assert(!is_white_space(parts[0][parts[0].len() - 1]));
        assert forall|i: int| 0 <= i < r.len() implies !#[trigger] is_white_space(r[i]) by {
            assert(r[i] == parts[0][i]);
        }
    } else if parts.len() > 1 {
        let p = parts.drop_last();
        assert forall|k: int| 0 <= k < p.len() implies #[trigger] p[k].len() > 0 by {
            assert(p[k] == parts[k]);
        }
        assert forall|k: int, j: int| 0 <= k < p.len() && 0 <= j < p[k].len() implies !is_white_space(
            #[trigger] p[k][j],
        ) by {
            assert(p[k] == parts[k]);
        }
        lemma_join_well_spaced(p);
        lemma_join_empty_iff(p, seq![' ']);
        let jp = join(p, seq![' ']);
        let w = parts.last();
        assert(w == parts[parts.len() - 1]);
        assert(w.len() > 0);
        let r = join(parts, seq![' ']);
        assert(r == jp + seq![' '] + w);
        assert(!is_white_space(w[0]));
        assert(!is_white_space(w[w.len() - 1]));
        assert(r.last() == w[w.len() - 1]);
        assert(r[0] == jp[0]);
        assert forall|i: int| 0 <= i < r.len() && #[trigger] is_white_space(r[i]) implies r[i] == ' ' && 0 < i < r.len()
            - 1 && !is_white_space(r[i - 1]) && !is_white_space(r[i + 1]) by {
            if i < jp.len() {
                assert(r[i] == jp[i]);
                if i == jp.len() - 1 {
                    assert(false);
                }
                assert(r[i + 1] == jp[i + 1]);
                if i > 0 {
                    assert(r[i - 1] == jp[i - 1]);
                }
            } else if i == jp.len() {
                assert(r[i - 1] == jp[jp.len() - 1]);
                assert(r[i + 1] == w[0]);
            } else {
                assert(r[i] == w[i - jp.len() - 1]);
                assert(false);
            }
        }
    }
}

/// Collapsing whitespace trims it and leaves only single spaces between
/// non-whitespace characters.
pub proof fn law_collapse_whitespace_is_well_spaced(s: Seq<char>)
    ensures
        well_spaced(collapse_whitespace(s)),
{
    lemma_words_shape(s);
    lemma_words_no_whitespace(s);
    lemma_join_well_spaced(words(s));
}

/// Appending a whitespace-free word to text that is empty or ends in whitespace
/// adds that word to the word list.
proof fn lemma_words_append_word(y: Seq<char>, w: Seq<char>)
    requires
        y.len() == 0 || is_white_space(y.last()),
        w.len() > 0,
        forall|j: int| 0 <= j < w.len() ==> !is_white_space(#[trigger] w[j]),
    ensures
        words(y + w) == words(y).push(w),
    decreases w.len(),
{
    let s = y + w;
    assert(s.last() == w[w.len() - 1]);
    if w.len() == 1 {
        assert(s.drop_last() =~= y);
        if s.len() >= 2 {
            assert(s[s.len() - 2] == y.last());
        }
        assert(seq![w[0]] =~= w);
    } else {
        let w1 = w.drop_last();
        assert forall|j: int| 0 <= j < w1.len() implies !is_white_space(#[trigger] w1[j]) by {
            assert(w1[j] == w[j]);
        }
        lemma_words_append_word(y, w1);
        assert(s.drop_last() =~= y + w1);
        assert(s[s.len() - 2] == w[w.len() - 2]);
        let prev = words(y).push(w1);
        assert(prev.update(prev.len() - 1, prev.last().push(w.last())) =~= words(y).push(w)) by {
            assert(w1.push(w.last()) =~= w);
        }
    }
}

/// Words that are non-empty and free of whitespace, joined by single spaces,
/// split back into the same words.
proof fn lemma_words_of_join(parts: Seq<Seq<char>>)
    requires
        forall|k: int| 0 <= k < parts.len() ==> #[trigger] parts[k].len() > 0,
        forall|k: int, j: int|
            0 <= k < parts.len() && 0 <= j < parts[k].len() ==> !is_white_space(#[trigger] parts[k][j]),
    ensures
        words(join(parts, seq![' '])) == parts,
    decreases parts.len(),
{
    if parts.len() == 1 {
        let w = parts[0];
        assert forall|j: int| 0 <= j < w.len() implies !is_white_space(#[trigger] w[j]) by {
            assert(parts[0][j] == w[j]);
        }
        lemma_words_append_word(seq![], w);
        assert(seq![] + w =~= w);
        assert(seq![].push(w) =~= parts);
    } else if parts.len() > 1 {
        let p = parts.drop_last();
        assert forall|k: int| 0 <= k < p.len() implies #[trigger] p[k].len() > 0 by {
            assert(p[k] == parts[k]);
        }
        assert forall|k: int, j: int| 0 <= k < p.len() && 0 <= j < p[k].len() implies !is_white_space(
            #[trigger] p[k][j],
        ) by {
            assert(p[k] == parts[k]);
        }
        lemma_words_of_join(p);
        let jp = join(p, seq![' ']);
        let y = jp + seq![' '];
        let w = parts.last();
        assert(w == parts[parts.len() - 1]);
        assert forall|j: int| 0 <= j < w.len() implies !is_white_space(#[trigger] w[j]) by {
            assert(parts[parts.len() - 1][j] == w[j]);
        }
        assert(y.last() == ' ');
        assert(is_white_space(' '));
        assert(y.drop_last() =~= jp);
        assert(words(y) == words(jp));
        lemma_words_append_word(y, w);
        assert(join(parts, seq![' ']) == y + w);
        assert(p.push(w) =~= parts);
    }
}

/// Stripping combining marks and collapsing whitespace, the two steps of
/// normalization computed here rather than by an outside call, each leave their
/// own result unchanged when applied again.
pub proof fn law_strip_and_collapse_idempotent(s: Seq<char>)
    ensures
        strip_marks(strip_marks(s)) == strip_marks(s),
        collapse_whitespace(collapse_whitespace(s)) == collapse_whitespace(s),
{
    lemma_words_shape(s);
    lemma_words_no_whitespace(s);
    lemma_words_of_join(words(s));
    let t = strip_marks(s);
    broadcast use vstd::seq_lib::group_filter_ensures;

    lemma_strip_marks_keeps_unmarked(t);
}

/// A sequence none of whose characters is a combining mark is unchanged by
/// stripping marks.
proof fn lemma_strip_marks_keeps_unmarked(t: Seq<char>)
    requires
        forall|i: int| 0 <= i < t.len() ==> !combining_mark(#[trigger] t[i]),
    ensures
        strip_marks(t) == t,
    decreases t.len(),
{
    reveal(Seq::filter);
    if t.len() > 0 {
        let u = t.drop_last();
        assert forall|i: int| 0 <= i < u.len() implies !combining_mark(#[trigger] u[i]) by {
            assert(u[i] == t[i]);
        }
        lemma_strip_marks_keeps_unmarked(u);
        assert(!combining_mark(t[t.len() - 1]));
        assert(u.push(t.last()) =~= t);
    }
}

/// Matching names is an equivalence: every name matches itself, matching is
/// symmetric, and two names matching a third match each other.
pub proof fn law_names_match_is_equivalence(a: Seq<char>, b: Seq<char>, c: Seq<char>)
    ensures
        normalized_name(a) == normalized_name(a),
        (normalized_name(a) == normalized_name(b)) == (normalized_name(b) == normalized_name(a)),
        normalized_name(a) == normalized_name(b) && normalized_name(b) == normalized_name(c)
            ==> normalized_name(a) == normalized_name(c),
{
}

// ---------------------------------------------------------------------------
// Executable code.
// ---------------------------------------------------------------------------

/// The characters of `s`, in order.
pub fn chars_of(s: &str) -> (res: Vec<char>)
    ensures
        res@ == s@,
{
    let mut res: Vec<char> = Vec::new();
    for c in it: s.chars()
        invariant
            res@ == it.seq().take(it.index() as int),
            it.seq() == s@,
    {
        res.push(c);
    }
    res
}


/// The characters `s[a..b]`.
pub fn sub_chars(s: &Vec<char>, a: usize, b: usize) -> (res: Vec<char>)
    requires
        a <= b <= s.len(),
    ensures
        res@ == s@.subrange(a as int, b as int),
{
    let mut res: Vec<char> = Vec::new();
    let mut k = a;
    while k < b
        invariant
            a <= k <= b <= s.len(),
            res@ == s@.subrange(a as int, k as int),
        decreases b - k,
    {
        res.push(s[k]);
        k = k + 1;
        assert(res@ =~= s@.subrange(a as int, k as int));
    }
    res
}

/// Whether `pat` occurs in `s` at index `i`.
pub fn occurs_at_exec(s: &Vec<char>, pat: &Vec<char>, i: usize) -> (r: bool)
    requires
        i + pat.len() <= s.len(),
    ensures
        r == occurs_at(s@, pat@, i as int),
{
    let mut k: usize = 0;
    while k < pat.len()
        invariant
            k <= pat.len(),
            i + pat.len() <= s.len(),
            forall|j: int| 0 <= j < k ==> s@[i + j] == pat@[j],
        decreases pat.len() - k,
    {
        if s[i + k] != pat[k] {
            assert(s@.subrange(i as int, i + pat.len())[k as int] != pat@[k as int]);
            return false;
        }
        k = k + 1;
    }
    assert(s@.subrange(i as int, i + pat.len()) =~= pat@);
    true
}

/// `s` split at the leftmost non-overlapping occurrences of `pat`.
pub fn split_chars(s: &Vec<char>, pat: &Vec<char>) -> (res: Vec<Vec<char>>)
    requires
        pat.len() > 0,
    ensures
        char_vecs(res@) == split_on(s@, pat@),
{
    let mut pieces: Vec<Vec<char>> = Vec::new();
    let mut start: usize = 0;
    let mut i: usize = 0;
    while i <= s.len() && pat.len() <= s.len() - i
        invariant
            pat.len() > 0,
            start <= i <= s.len(),
            char_vecs(pieces@) + split_from(s@, pat@, start as int, i as int) == split_on(s@, pat@),
        decreases s.len() - i,
    {
        if occurs_at_exec(s, pat, i) {
            let piece = sub_chars(s, start, i);
            let ghost before = char_vecs(pieces@);
            pieces.push(piece);
            proof {
                assert(char_vecs(pieces@) =~= before.push(s@.subrange(start as int, i as int)));
                assert(before.push(s@.subrange(start as int, i as int)) + split_from(s@, pat@, i + pat.len(), i + pat.len())
                    =~= before + (seq![s@.subrange(start as int, i as int)] + split_from(s@, pat@, i + pat.len(), i + pat.len())));
            }
            i = i + pat.len();
            start = i;
        } else {
            i = i + 1;
        }
    }
    let last = sub_chars(s, start, s.len());
    let ghost before = char_vecs(pieces@);
    pieces.push(last);
    assert(char_vecs(pieces@) =~= before + split_from(s@, pat@, start as int, i as int));
    pieces
}

proof fn lemma_trim_start_skip(s: Seq<char>, a: int)
    requires
        0 <= a < s.len(),
        is_white_space(s[a]),
    ensures
        trim_start(s.subrange(a, s.len() as int)) == trim_start(s.subrange(a + 1, s.len() as int)),
{
    assert(s.subrange(a, s.len() as int).drop_first() =~= s.subrange(a + 1, s.len() as int));
}

proof fn lemma_trim_end_skip(s: Seq<char>, b: int)
    requires
        0 < b <= s.len(),
        is_white_space(s[b - 1]),
    ensures
        trim_end(s.subrange(0, b)) == trim_end(s.subrange(0, b - 1)),
{
    assert(s.subrange(0, b).drop_last() =~= s.subrange(0, b - 1));
}

/// `s` without leading and trailing whitespace.
pub fn trim_chars(s: &Vec<char>) -> (res: Vec<char>)
    ensures
        res@ == trim(s@),
{
    let mut a: usize = 0;
    assert(s@.subrange(0, s.len() as int) =~= s@);
    while a < s.len() && char_is_whitespace(s[a])
        invariant
            a <= s.len(),
            trim_start(s@) == trim_start(s@.subrange(a as int, s.len() as int)),
        decreases s.len() - a,
    {
        proof {
            lemma_trim_start_skip(s@, a as int);
        }
        a = a + 1;
    }
    let ghost t = s@.subrange(a as int, s.len() as int);
    assert(trim_start(s@) == t);
    let mut b: usize = s.len();
    assert(t.subrange(0, t.len() as int) =~= t);
    while b > a && char_is_whitespace(s[b - 1])
        invariant
            a <= b <= s.len(),
            t == s@.subrange(a as int, s.len() as int),
            trim_end(t) == trim_end(t.subrange(0, b - a)),
        decreases b - a,
    {
        proof {
            assert(t[b - a - 1] == s@[b - 1]);
            lemma_trim_end_skip(t, b - a);
        }
        b = b - 1;
    }
    assert(t.subrange(0, b - a) =~= s@.subrange(a as int, b as int));
    sub_chars(s, a, b)
}

/// The concatenation of two strings.
pub fn concat(a: &str, b: &str) -> (res: String)
    ensures
        res@ == a@ + b@,
{
    let mut x = chars_of(a);
    let mut y = chars_of(b);
    x.append(&mut y);
    string_from_chars(&x)
}

/// `s` with every combining mark removed.
fn strip_combining_marks(s: &Vec<char>) -> (res: Vec<char>)
    ensures
        res@ == strip_marks(s@),
{
    let mut res: Vec<char> = Vec::new();
    let mut i: usize = 0;
    while i < s.len()
        invariant
            i <= s.len(),
            res@ == strip_marks(s@.take(i as int)),
        decreases s.len() - i,
    {
        let c = s[i];
        proof {
            reveal_with_fuel(Seq::<_>::filter, 1);
            assert(s@.take(i + 1).drop_last() =~= s@.take(i as int));
        }
        if !is_combining_mark(c) {
            res.push(c);
        }
        i = i + 1;
    }
    assert(s@.take(s.len() as int) =~= s@);
    res
}

/// The words of `s` separated by single spaces (`split_whitespace` then
/// `join(" ")`).
pub fn collapse_whitespace_chars(s: &Vec<char>) -> (res: Vec<char>)
    ensures
        res@ == collapse_whitespace(s@),
{
    let mut out: Vec<char> = Vec::new();
    let mut in_word = false;
    let mut i: usize = 0;
    while i < s.len()
        invariant
            i <= s.len(),
            out@ == collapse_whitespace(s@.take(i as int)),
            in_word == (i > 0 && !is_white_space(s@[i - 1])),
        decreases s.len() - i,
    {
        let c = s[i];
        let ghost pre = s@.take(i as int);
        let ghost cur = s@.take(i + 1);
        proof {
            assert(cur.drop_last() =~= pre);
            assert(cur.last() == c);
            lemma_words_shape(pre);
            lemma_join_empty_iff(words(pre), seq![' ']);
        }
        if char_is_whitespace(c) {
            in_word = false;
        } else if in_word {
            proof {
                assert(cur[cur.len() - 2] == s@[i - 1]);
                assert(pre.last() == s@[i - 1]);
                lemma_join_extend_last(words(pre), seq![' '], c);
            }
            out.push(c);
        } else {
            proof {
                if i > 0 {
                    assert(cur[cur.len() - 2] == s@[i - 1]);
                }
                lemma_join_push(words(pre), seq![' '], seq![c]);
            }
            if out.len() > 0 {
                out.push(' ');
            }
            out.push(c);
            proof {
                if words(pre).len() > 0 {
                    assert(out@ =~= join(words(pre), seq![' ']) + seq![' '] + seq![c]);
                } else {
                    assert(out@ =~= seq![c]);
                }
            }
            in_word = true;
        }
        i = i + 1;
    }
    assert(s@.take(s.len() as int) =~= s@);
    out
}

/// lowercase, trim, collapse internal whitespace, strip diacritics.
pub fn normalize_artist_name(name: &str) -> (res: String)
    ensures
        res@ == normalized_name(name@),
{
    let decomposed = nfkd_chars(name);
    let stripped = strip_combining_marks(&decomposed);
    let collapsed = collapse_whitespace_chars(&stripped);
    let joined = string_from_chars(&collapsed);
    to_lowercase(joined.as_str())
}

/// Whether two names are the same artist under normalization.
pub fn names_match(a: &str, b: &str) -> (r: bool)
    ensures
        r == (normalized_name(a@) == normalized_name(b@)),
{
    let na = normalize_artist_name(a);
    let nb = normalize_artist_name(b);
    na == nb
}

} // verus!
