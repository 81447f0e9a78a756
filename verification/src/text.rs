//! Character-level text operations used by the command parser and the
//! lookups of the game: whitespace splitting, substring search, and the
//! two case-insensitive comparisons the game relies on.
use vstd::prelude::*;
use vstd::string::StrSliceExecFns;
use vstd::string::StringExecFns;

verus! {

/// The Unicode `White_Space` property, which `char::is_whitespace` tests.
pub open spec fn is_ws(c: char) -> bool {
    let x = c as int;
    ||| 0x09 <= x <= 0x0d
    ||| x == 0x20
    ||| x == 0x85
    ||| x == 0xa0
    ||| x == 0x1680
    ||| 0x2000 <= x <= 0x200a
    ||| x == 0x2028
    ||| x == 0x2029
    ||| x == 0x202f
    ||| x == 0x205f
    ||| x == 0x3000
}

/// Whether `c` is a whitespace character.
pub fn is_whitespace(c: char) -> (b: bool)
    ensures
        b == is_ws(c),
{
    let x: u32 = c as u32;
    (0x09 <= x && x <= 0x0d) || x == 0x20 || x == 0x85 || x == 0xa0 || x == 0x1680 || (0x2000
        <= x && x <= 0x200a) || x == 0x2028 || x == 0x2029 || x == 0x202f || x == 0x205f || x
        == 0x3000
}

/// Number of leading non-whitespace characters of `s`.
pub open spec fn word_len(s: Seq<char>) -> nat
    decreases s.len(),
{
    if s.len() == 0 || is_ws(s[0]) {
        0
    } else {
        1 + word_len(s.drop_first())
    }
}

/// A word is never longer than the text it starts, and is not empty when
/// the text starts with a non-whitespace character.
pub proof fn lemma_word_len_bound(s: Seq<char>)
    ensures
        word_len(s) <= s.len(),
        s.len() > 0 && !is_ws(s[0]) ==> word_len(s) >= 1,
    decreases s.len(),
{
    if s.len() > 0 && !is_ws(s[0]) {
        lemma_word_len_bound(s.drop_first());
    }
}

/// The maximal runs of non-whitespace characters of `s`, in order
/// (what `str::split_whitespace` yields).
pub open spec fn words(s: Seq<char>) -> Seq<Seq<char>>
    decreases s.len(),
{
    if s.len() == 0 {
        Seq::empty()
    } else if is_ws(s[0]) {
        words(s.drop_first())
    } else {
        let k = word_len(s);
        proof {
            lemma_word_len_bound(s);
        }
        seq![s.take(k as int)] + words(s.skip(k as int))
    }
}

/// The words joined with single spaces (what `[&str]::join(" ")` yields).
pub open spec fn join_space(ws: Seq<Seq<char>>) -> Seq<char>
    decreases ws.len(),
{
    if ws.len() == 0 {
        Seq::empty()
    } else if ws.len() == 1 {
        ws[0]
    } else {
        join_space(ws.drop_last()) + seq![' '] + ws.last()
    }
}

/// The characters of a word are not whitespace.
proof fn lemma_word_chars(s: Seq<char>)
    ensures
        forall|i: int| 0 <= i < word_len(s) ==> !is_ws(#[trigger] s[i]),
    decreases s.len(),
{
    if s.len() > 0 && !is_ws(s[0]) {
        lemma_word_chars(s.drop_first());
        lemma_word_len_bound(s);
        assert forall|i: int| 0 <= i < word_len(s) implies !is_ws(#[trigger] s[i]) by {
            if i > 0 {
                assert(s[i] == s.drop_first()[i - 1]);
            }
        }
    }
}

/// A word followed by text that starts with whitespace ends where it did.
proof fn lemma_word_len_append(a: Seq<char>, b: Seq<char>)
    requires
        b.len() > 0 ==> is_ws(b[0]),
    ensures
        word_len(a + b) == word_len(a),
    decreases a.len(),
{
    if a.len() == 0 {
        assert(a + b =~= b);
    } else if !is_ws(a[0]) {
        assert((a + b).drop_first() =~= a.drop_first() + b);
        lemma_word_len_append(a.drop_first(), b);
    }
}

/// Splitting text that joins `a` to text starting with whitespace splits
/// each part on its own.
proof fn lemma_words_append(a: Seq<char>, b: Seq<char>)
    requires
        b.len() > 0,
        is_ws(b[0]),
    ensures
        words(a + b) == words(a) + words(b),
    decreases a.len(),
{
    if a.len() == 0 {
        assert(a + b =~= b);
        assert(words(a) + words(b) =~= words(b));
    } else if is_ws(a[0]) {
        assert((a + b).drop_first() =~= a.drop_first() + b);
        lemma_words_append(a.drop_first(), b);
    } else {
        let k = word_len(a) as int;
        lemma_word_len_append(a, b);
        lemma_word_len_bound(a);
        assert((a + b).take(k) =~= a.take(k));
        assert((a + b).skip(k) =~= a.skip(k) + b);
        lemma_words_append(a.skip(k), b);
        assert(words(a + b) =~= words(a) + words(b));
    }
}

/// A non-empty run without whitespace is a single word.
proof fn lemma_single_word(w: Seq<char>)
    requires
        w.len() > 0,
        forall|i: int| 0 <= i < w.len() ==> !is_ws(#[trigger] w[i]),
    ensures
        word_len(w) == w.len(),
        words(w) == seq![w],
    decreases w.len(),
{
    assert(!is_ws(w[0]));
    if w.len() > 1 {
        let t = w.drop_first();
        assert forall|i: int| 0 <= i < t.len() implies !is_ws(#[trigger] t[i]) by {
            assert(t[i] == w[i + 1]);
        }
        lemma_single_word(t);
    } else {
        assert(w.drop_first().len() == 0);
        assert(word_len(w.drop_first()) == 0);
    }
    assert(w.take(w.len() as int) =~= w);
    assert(w.skip(w.len() as int) =~= Seq::<char>::empty());
    assert(words(Seq::<char>::empty()) =~= Seq::<Seq<char>>::empty());
    assert(words(w) =~= seq![w] + words(w.skip(w.len() as int)));
    assert(words(w) =~= seq![w]);
}

/// `w` is a word: not empty, without whitespace.
pub open spec fn is_word(w: Seq<char>) -> bool {
    &&& w.len() > 0
    &&& forall|i: int| 0 <= i < w.len() ==> !is_ws(#[trigger] w[i])
}

/// Every piece of a split is a word.
pub proof fn lemma_words_are_words(s: Seq<char>)
    ensures
        forall|i: int| 0 <= i < words(s).len() ==> is_word(#[trigger] words(s)[i]),
    decreases s.len(),
{
    if s.len() > 0 {
        if is_ws(s[0]) {
            lemma_words_are_words(s.drop_first());
            assert(words(s) == words(s.drop_first()));
        } else {
            let k = word_len(s) as int;
            lemma_word_len_bound(s);
            lemma_word_chars(s);
            lemma_words_are_words(s.skip(k));
            let w = s.take(k);
            assert(is_word(w)) by {
                assert forall|i: int| 0 <= i < w.len() implies !is_ws(#[trigger] w[i]) by {
                    assert(w[i] == s[i]);
                }
            }
            assert(words(s) == seq![w] + words(s.skip(k)));
            assert forall|i: int| 0 <= i < words(s).len() implies is_word(#[trigger] words(s)[i]) by {
                if i == 0 {
                    assert(words(s)[i] == w);
                } else {
                    assert(words(s)[i] == words(s.skip(k))[i - 1]);
                }
            }
        }
    }
}

/// Words joined by single spaces split back into the same words.
pub proof fn lemma_join_split(ws: Seq<Seq<char>>)
    requires
        forall|i: int| 0 <= i < ws.len() ==> is_word(#[trigger] ws[i]),
    ensures
        words(join_space(ws)) == ws,
    decreases ws.len(),
{
    if ws.len() == 0 {
        assert(words(join_space(ws)) =~= ws);
    } else if ws.len() == 1 {
        assert(is_word(ws[0]));
        lemma_single_word(ws[0]);
        assert(ws =~= seq![ws[0]]);
    } else {
        let d = ws.drop_last();
        assert forall|i: int| 0 <= i < d.len() implies is_word(#[trigger] d[i]) by {
            assert(d[i] == ws[i]);
        }
        lemma_join_split(d);
        let w = ws.last();
        assert(is_word(ws[ws.len() - 1]));
        let b = seq![' '] + w;
        assert(join_space(ws) =~= join_space(d) + b);
        lemma_words_append(join_space(d), b);
        assert(b.drop_first() =~= w);
        lemma_single_word(w);
        assert(words(b) == words(w));
        assert(ws =~= d + seq![w]);
    }
}

/// `needle` occurs in `hay` as a contiguous run (what `str::contains` tests).
pub open spec fn has_substring(hay: Seq<char>, needle: Seq<char>) -> bool {
    exists|i: int|
        0 <= i && i + needle.len() <= hay.len() && #[trigger] hay.subrange(i, i + needle.len())
            == needle
}

/// The code of `c` with ASCII upper-case letters mapped to lower case.
pub open spec fn ascii_lower_code(c: char) -> int {
    let x = c as int;
    if 0x41 <= x <= 0x5a {
        x + 0x20
    } else {
        x
    }
}

/// Equal up to ASCII case (what `str::eq_ignore_ascii_case` tests).
pub open spec fn eq_ignore_ascii(a: Seq<char>, b: Seq<char>) -> bool {
    &&& a.len() == b.len()
    &&& forall|i: int| 0 <= i < a.len() ==> ascii_lower_code(a[i]) == ascii_lower_code(b[i])
}

/// What `str::to_lowercase` returns for a string: the full Unicode
/// lower-case mapping, a function of the characters alone.
pub uninterp spec fn lowercase(s: Seq<char>) -> Seq<char>;

/// Calls `str::to_lowercase`; its result is named `lowercase` of the argument.
#[verifier::external_body]
pub(crate) fn to_lowercase(s: &str) -> (r: String)
    ensures
        r@ == lowercase(s@),
{
    s.to_lowercase()
}

/// The characters of `s`, in order.
pub fn chars_of(s: &str) -> (v: Vec<char>)
    ensures
        v@ == s@,
{
    let n = s.unicode_len();
    let mut v: Vec<char> = Vec::new();
    let mut i: usize = 0;
    while i < n
        invariant
            n == s@.len(),
            i <= n,
            v@ == s@.take(i as int),
        decreases n - i,
    {
        let c = s.get_char(i);
        v.push(c);
        i = i + 1;
        assert(v@ =~= s@.take(i as int));
    }
    assert(v@ =~= s@);
    v
}

/// Exact string equality.
pub fn str_eq(a: &str, b: &str) -> (r: bool)
    ensures
        r == (a@ == b@),
{
    let x = String::from_str(a);
    let y = String::from_str(b);
    x == y
}

/// Whether `needle` occurs in `hay`.
pub fn contains_str(hay: &str, needle: &str) -> (r: bool)
    ensures
        r == has_substring(hay@, needle@),
{
    let h = chars_of(hay);
    let n = chars_of(needle);
    let hl = h.len();
    let nl = n.len();
    if nl > hl {
        assert forall|i: int|
            0 <= i && i + nl <= hl implies #[trigger] hay@.subrange(i, i + needle@.len())
            != needle@ by {}
        return false;
    }
    let mut i: usize = 0;
    while i <= hl - nl
        invariant
            h@ == hay@,
            n@ == needle@,
            hl == h@.len(),
            nl == n@.len(),
            nl <= hl,
            i <= hl - nl,
            forall|k: int|
                0 <= k < i ==> #[trigger] hay@.subrange(k, k + needle@.len()) != needle@,
        decreases hl - nl - i,
    {
        let mut j: usize = 0;
        let mut same = true;
        while j < nl
            invariant
                h@ == hay@,
                n@ == needle@,
                hl == h@.len(),
                nl == n@.len(),
                i + nl <= hl,
                j <= nl,
                same ==> forall|t: int| 0 <= t < j ==> h@[i + t] == n@[t],
                !same ==> hay@.subrange(i as int, i + needle@.len()) != needle@,
            decreases nl - j,
        {
            if h[i + j] != n[j] {
                same = false;
                assert(hay@.subrange(i as int, i + needle@.len())[j as int] != needle@[j as int]);
            }
            j = j + 1;
        }
        if same {
            assert(hay@.subrange(i as int, i + needle@.len()) =~= needle@);
            return true;
        }
        if i == hl - nl {
            return false;
        }
        i = i + 1;
    }
    false
}

/// The code of `c` with ASCII upper-case letters mapped to lower case.
pub fn ascii_lower(c: char) -> (r: u32)
    ensures
        r == ascii_lower_code(c),
{
    let x: u32 = c as u32;
    if 0x41 <= x && x <= 0x5a {
        x + 0x20
    } else {
        x
    }
}

/// Whether `a` and `b` are equal up to ASCII case.
pub fn eq_ignore_ascii_case(a: &str, b: &str) -> (r: bool)
    ensures
        r == eq_ignore_ascii(a@, b@),
{
    let x = chars_of(a);
    let y = chars_of(b);
    if x.len() != y.len() {
        return false;
    }
    let n = x.len();
    let mut i: usize = 0;
    while i < n
        invariant
            x@ == a@,
            y@ == b@,
            n == x@.len(),
            n == y@.len(),
            i <= n,
            forall|k: int| 0 <= k < i ==> ascii_lower_code(a@[k]) == ascii_lower_code(b@[k]),
        decreases n - i,
    {
        if ascii_lower(x[i]) != ascii_lower(y[i]) {
            return false;
        }
        i = i + 1;
    }
    true
}

/// Whether `a` and `b` have the same lower-case form.
pub fn eq_lowercase(a: &str, b: &str) -> (r: bool)
    ensures
        r == (lowercase(a@) == lowercase(b@)),
{
    let x = to_lowercase(a);
    let y = to_lowercase(b);
    x == y
}

/// Whether `lowercase(hay)` contains `lowercase(needle)`.
pub fn contains_lowercase(hay: &str, needle: &str) -> (r: bool)
    ensures
        r == has_substring(lowercase(hay@), lowercase(needle@)),
{
    let x = to_lowercase(hay);
    let y = to_lowercase(needle);
    contains_str(x.as_str(), y.as_str())
}

proof fn lemma_word_len_run(s: Seq<char>, i: int, j: int)
    requires
        0 <= i <= j <= s.len(),
        forall|k: int| i <= k < j ==> !is_ws(#[trigger] s[k]),
        j == s.len() || is_ws(s[j]),
    ensures
        word_len(s.skip(i)) == j - i,
    decreases j - i,
{
    if i == j {
    } else {
        lemma_word_len_run(s, i + 1, j);
        assert(s.skip(i).drop_first() =~= s.skip(i + 1));
    }
}

/// The words of `s`, in order, each as a `String`.
pub fn split_words(s: &str) -> (ws: Vec<String>)
    ensures
        ws@.map_values(|w: String| w@) == words(s@),
{
    let cs = chars_of(s);
    let n = cs.len();
    let mut out: Vec<String> = Vec::new();
    let mut i: usize = 0;
    assert(s@.skip(0) =~= s@);
    while i < n
        invariant
            cs@ == s@,
            n == cs@.len(),
            i <= n,
            out@.map_values(|w: String| w@) + words(s@.skip(i as int)) == words(s@),
        decreases n - i,
    {
        if is_whitespace(cs[i]) {
            assert(s@.skip(i as int).drop_first() =~= s@.skip(i + 1));
            i = i + 1;
        } else {
            let mut j: usize = i + 1;
            while j < n && !is_whitespace(cs[j])
                invariant
                    cs@ == s@,
                    n == cs@.len(),
                    i < j <= n,
                    forall|k: int| i <= k < j ==> !is_ws(#[trigger] s@[k]),
                decreases n - j,
            {
                j = j + 1;
            }
            proof {
                lemma_word_len_run(s@, i as int, j as int);
                assert(s@.skip(i as int).take(j - i) =~= s@.subrange(i as int, j as int));
                assert(s@.skip(i as int).skip(j - i) =~= s@.skip(j as int));
            }
            let w = String::from_str(s.substring_char(i, j));
            let ghost before = out@.map_values(|w: String| w@);
            out.push(w);
            assert(out@.map_values(|w: String| w@) =~= before.push(s@.subrange(i as int, j as int)));
            assert(out@.map_values(|w: String| w@) + words(s@.skip(j as int)) =~= before + words(
                s@.skip(i as int),
            ));
            i = j;
        }
    }
    assert(out@.map_values(|w: String| w@) + words(s@.skip(n as int)) =~= out@.map_values(
        |w: String| w@,
    ));
    out
}

/// The words `ws[from..]` joined with single spaces.
pub fn join_words(ws: &Vec<String>, from: usize) -> (r: String)
    requires
        from <= ws.len(),
    ensures
        r@ == join_space(ws@.map_values(|w: String| w@).skip(from as int)),
{
    let ghost all = ws@.map_values(|w: String| w@);
    let mut r = String::new();
    let mut i: usize = from;
    assert(all.skip(from as int).take(0) =~= Seq::<Seq<char>>::empty());
    while i < ws.len()
        invariant
            all == ws@.map_values(|w: String| w@),
            from <= i <= ws.len(),
            r@ == join_space(all.skip(from as int).take(i - from)),
        decreases ws.len() - i,
    {
        let ghost prev = all.skip(from as int).take(i - from);
        let ghost next = all.skip(from as int).take(i + 1 - from);
        assert(next.drop_last() =~= prev);
        assert(next.last() == ws@[i as int]@);
        if i > from {
            r.append(" ");
            proof {
                reveal_strlit(" ");
            }
        }
        r.append(ws[i].as_str());
        proof {
            if i > from {
                assert(r@ =~= join_space(prev) + seq![' '] + next.last());
            } else {
                assert(prev.len() == 0);
                assert(r@ =~= next.last());
            }
        }
        i = i + 1;
    }
    assert(all.skip(from as int).take(ws.len() - from) =~= all.skip(from as int));
    r
}

} // verus!
