//! Text as sequences of characters: searching, splitting, trimming and joining, each stated over
//! `Seq<char>` and carried out over a vector of characters.

use vstd::prelude::*;
use vstd::string::*;
use vstd::utf8::*;

verus! {

/// `String::push`: the character is appended, what was there stays.
pub assume_specification[ String::push ](s: &mut String, c: char)
    ensures
        final(s)@ == old(s)@.push(c),
;

/// The characters of each text.
pub open spec fn texts(v: Seq<String>) -> Seq<Seq<char>> {
    v.map_values(|s: String| s@)
}

/// The characters of a text that may be absent.
pub open spec fn opt_text(o: Option<String>) -> Option<Seq<char>> {
    match o {
        Some(s) => Some(s@),
        None => None,
    }
}

/// The characters of `s`, in a vector.
pub fn chars_of(s: &str) -> (v: Vec<char>)
    ensures
        v@ == s@,
{
    let mut v: Vec<char> = Vec::new();
    for c in it: s.chars()
        invariant
            v@ == it.seq().take(it.index()),
            it.seq() == s@,
    {
        v.push(c);
    }
    v
}

/// The characters `from..to` of `v`, as a text.
pub fn string_of(v: &[char], from: usize, to: usize) -> (s: String)
    requires
        from <= to <= v@.len(),
    ensures
        s@ == v@.subrange(from as int, to as int),
{
    let mut s = String::new();
    let mut i: usize = from;
    while i < to
        invariant
            from <= i <= to <= v@.len(),
            s@ == v@.subrange(from as int, i as int),
        decreases to - i,
    {
        s.push(v[i]);
        i += 1;
    }
    s
}

/// Whether `pat` stands in `s` from position `i` on.
pub open spec fn occurs_at(s: Seq<char>, pat: Seq<char>, i: int) -> bool {
    &&& 0 <= i
    &&& i + pat.len() <= s.len()
    &&& s.subrange(i, i + pat.len()) == pat
}

/// Whether `pat` stands anywhere in `s`.
pub open spec fn has(s: Seq<char>, pat: Seq<char>) -> bool {
    exists|i: int| occurs_at(s, pat, i)
}

/// The first position from `i` on at which `pat` stands in `s`.
pub open spec fn find_from(s: Seq<char>, pat: Seq<char>, i: int) -> Option<int>
    decreases s.len() - i + 1,
{
    if i < 0 || i + pat.len() > s.len() {
        None
    } else if occurs_at(s, pat, i) {
        Some(i)
    } else {
        find_from(s, pat, i + 1)
    }
}

/// The first position at which `pat` stands in `s`.
pub open spec fn find(s: Seq<char>, pat: Seq<char>) -> Option<int> {
    find_from(s, pat, 0)
}

/// What [`find_from`] finds is an occurrence, and there is none before it.
pub proof fn lemma_find_from(s: Seq<char>, pat: Seq<char>, i: int)
    requires
        0 <= i,
    ensures
        match find_from(s, pat, i) {
            Some(k) => i <= k && occurs_at(s, pat, k) && forall|j: int|
                i <= j < k ==> !occurs_at(s, pat, j),
            None => forall|j: int| i <= j ==> !occurs_at(s, pat, j),
        },
    decreases s.len() - i + 1,
{
    if i + pat.len() <= s.len() && !occurs_at(s, pat, i) {
        lemma_find_from(s, pat, i + 1);
    }
}

/// Whether `pat` stands in `s` at position `i` and nowhere before.
pub open spec fn first_at(s: Seq<char>, pat: Seq<char>, i: int) -> bool {
    &&& 0 <= i <= s.len() - pat.len()
    &&& s.subrange(i, i + pat.len()) == pat
    &&& forall|j: int|
        0 <= j < i ==> #[trigger] s.subrange(j, j + pat.len()) != pat
}

/// [`find`] gives the first occurrence, exactly where there is one.
pub proof fn lemma_find_is_first(s: Seq<char>, pat: Seq<char>)
    ensures
        has(s, pat) <==> find(s, pat) is Some,
        match find(s, pat) {
            Some(i) => first_at(s, pat, i) && occurs_at(s, pat, i),
            None => true,
        },
        forall|i: int| #[trigger] first_at(s, pat, i) ==> find(s, pat) == Some(i),
{
    lemma_find_from(s, pat, 0);
    if let Some(k) = find(s, pat) {
        assert forall|j: int| 0 <= j < k implies #[trigger] s.subrange(j, j + pat.len())
            != pat by {
            assert(!occurs_at(s, pat, j));
        }
    }
    assert forall|i: int| #[trigger] first_at(s, pat, i) implies find(s, pat) == Some(i) by {
        assert(occurs_at(s, pat, i));
        let k = find(s, pat).unwrap();
        if k < i {
            assert(s.subrange(k, k + pat.len()) != pat);
        }
    }
}

/// Whether `pat` stands in `s` at position `i`.
pub(crate) fn matches_at(s: &[char], pat: &[char], i: usize) -> (r: bool)
    requires
        i + pat@.len() <= s@.len(),
    ensures
        r == occurs_at(s@, pat@, i as int),
{
    let n: usize = s.len();
    let mut k: usize = 0;
    while k < pat.len()
        invariant
            k <= pat@.len(),
            n == s@.len(),
            i + pat@.len() <= s@.len(),
            forall|j: int| 0 <= j < k ==> s@[i + j] == pat@[j],
        decreases pat@.len() - k,
    {
        if s[i + k] != pat[k] {
            assert(s@.subrange(i as int, i + pat@.len())[k as int] != pat@[k as int]);
            return false;
        }
        k += 1;
    }
    assert(s@.subrange(i as int, i + pat@.len()) =~= pat@);
    true
}

fn find_in(s: &[char], pat: &[char], from: usize) -> (r: Option<usize>)
    ensures
        match r {
            Some(k) => find_from(s@, pat@, from as int) == Some(k as int) && k + pat@.len() <= s@.len(),
            None => find_from(s@, pat@, from as int) is None,
        },
{
    let n: usize = s.len();
    let m: usize = pat.len();
    if m > n {
        return None;
    }
    let mut i: usize = from;
    while i <= n - m
        invariant
            from <= i,
            n == s@.len(),
            m == pat@.len(),
            m <= n,
            find_from(s@, pat@, from as int) == find_from(s@, pat@, i as int),
        decreases n - m + 1 - i,
    {
        if matches_at(s, pat, i) {
            return Some(i);
        }
        proof {
            if m == 0 {
                assert(s@.subrange(i as int, i as int) =~= pat@);
            }
        }
        i += 1;
    }
    None
}

/// Whether `pat` stands anywhere in `s`.
pub fn contains(s: &str, pat: &str) -> (r: bool)
    ensures
        r == has(s@, pat@),
{
    let v = chars_of(s);
    let p = chars_of(pat);
    proof {
        lemma_find_from(s@, pat@, 0);
    }
    let at = find_in(v.as_slice(), p.as_slice(), 0);
    proof {
        if let Some(k) = find_from(s@, pat@, 0) {
            assert(occurs_at(s@, pat@, k));
        }
    }
    at.is_some()
}

/// What follows the first occurrence of `pat` in `s`.
pub open spec fn after_first(s: Seq<char>, pat: Seq<char>) -> Option<Seq<char>> {
    match find(s, pat) {
        Some(i) => Some(s.skip(i + pat.len())),
        None => None,
    }
}

/// The position of the first occurrence of `pat` in `s`, counted in characters.
pub fn position(s: &str, pat: &str) -> (r: Option<usize>)
    ensures
        match r {
            Some(k) => find(s@, pat@) == Some(k as int) && k + pat@.len() <= s@.len(),
            None => find(s@, pat@) is None,
        },
{
    let v = chars_of(s);
    let p = chars_of(pat);
    find_in(v.as_slice(), p.as_slice(), 0)
}

/// What follows the first occurrence of `pat` in `s`.
pub fn split_after(s: &str, pat: &str) -> (r: Option<String>)
    ensures
        opt_text(r) == after_first(s@, pat@),
{
    let v = chars_of(s);
    let p = chars_of(pat);
    match find_in(v.as_slice(), p.as_slice(), 0) {
        Some(k) => {
            let n: usize = v.len();
            let rest = string_of(v.as_slice(), k + p.len(), n);
            assert(rest@ =~= s@.skip(k + pat@.len()));
            Some(rest)
        },
        None => None,
    }
}

/// The first position from `i` on that holds one of `stops`, or the end of `s`.
pub open spec fn stop_at(s: Seq<char>, stops: Seq<char>, i: int) -> int
    decreases s.len() - i,
{
    if i < 0 || i >= s.len() {
        s.len() as int
    } else if stops.contains(s[i]) {
        i
    } else {
        stop_at(s, stops, i + 1)
    }
}

/// `s` up to the first of the characters `stops`.
pub open spec fn before_any(s: Seq<char>, stops: Seq<char>) -> Seq<char> {
    s.take(stop_at(s, stops, 0))
}

/// [`stop_at`] stays within the text, and no stop stands before it.
pub proof fn lemma_stop_at(s: Seq<char>, stops: Seq<char>, i: int)
    requires
        0 <= i <= s.len(),
    ensures
        i <= stop_at(s, stops, i) <= s.len(),
        forall|j: int| i <= j < stop_at(s, stops, i) ==> !stops.contains(#[trigger] s[j]),
        stop_at(s, stops, i) < s.len() ==> stops.contains(s[stop_at(s, stops, i)]),
    decreases s.len() - i,
{
    if i < s.len() && !stops.contains(s[i]) {
        lemma_stop_at(s, stops, i + 1);
    }
}

/// [`stop_at`] is where the first stop stands, or the end of the text.
pub proof fn lemma_stops_at(s: Seq<char>, stops: Seq<char>, k: int)
    requires
        0 <= k <= s.len(),
        forall|j: int| 0 <= j < k ==> !stops.contains(#[trigger] s[j]),
        k < s.len() ==> stops.contains(s[k]),
    ensures
        stop_at(s, stops, 0) == k,
        before_any(s, stops) == s.take(k),
{
    lemma_stop_at(s, stops, 0);
    let end = stop_at(s, stops, 0);
    if end < k {
        assert(!stops.contains(s[end]));
    }
}

fn holds(set: &[char], c: char) -> (r: bool)
    ensures
        r == set@.contains(c),
{
    let mut i: usize = 0;
    while i < set.len()
        invariant
            i <= set@.len(),
            forall|j: int| 0 <= j < i ==> set@[j] != c,
        decreases set@.len() - i,
    {
        if set[i] == c {
            return true;
        }
        i += 1;
    }
    false
}

fn stop_in(s: &[char], stops: &[char], from: usize) -> (r: usize)
    requires
        from <= s@.len(),
    ensures
        r == stop_at(s@, stops@, from as int),
        from <= r <= s@.len(),
{
    let mut i: usize = from;
    while i < s.len()
        invariant
            from <= i <= s@.len(),
            stop_at(s@, stops@, from as int) == stop_at(s@, stops@, i as int),
        decreases s@.len() - i,
    {
        if holds(stops, s[i]) {
            return i;
        }
        i += 1;
    }
    i
}

/// The first position from `from` on that holds one of `stops`, or the end of `s`.
pub fn stop_position(s: &str, stops: &str, from: usize) -> (r: usize)
    requires
        from <= s@.len(),
    ensures
        r == stop_at(s@, stops@, from as int),
        from <= r <= s@.len(),
{
    let v = chars_of(s);
    let p = chars_of(stops);
    stop_in(v.as_slice(), p.as_slice(), from)
}

/// `s` up to the first of the characters `stops`.
pub fn up_to(s: &str, stops: &str) -> (r: String)
    ensures
        r@ == before_any(s@, stops@),
{
    let v = chars_of(s);
    let p = chars_of(stops);
    let k: usize = stop_in(v.as_slice(), p.as_slice(), 0);
    string_of(v.as_slice(), 0, k)
}

/// `s` from the character after the last `c` on; all of `s` where there is none.
pub open spec fn after_last(s: Seq<char>, c: char) -> Seq<char>
    decreases s.len(),
{
    if s.len() == 0 || s.last() == c {
        Seq::empty()
    } else {
        after_last(s.drop_last(), c).push(s.last())
    }
}

/// `s` from the character after the last `c` on.
pub fn beyond_last(s: &str, c: char) -> (r: String)
    ensures
        r@ == after_last(s@, c),
{
    let v = chars_of(s);
    let mut i: usize = v.len();
    proof {
        assert(v@.subrange(i as int, v@.len() as int) =~= Seq::<char>::empty());
        assert(v@.take(i as int) =~= v@);
    }
    while i > 0 && v[i - 1] != c
        invariant
            i <= v@.len(),
            after_last(v@, c) =~= after_last(v@.take(i as int), c) + v@.subrange(i as int, v@.len() as int),
        decreases i,
    {
        proof {
            let t = v@.take(i as int);
            assert(t.drop_last() =~= v@.take(i - 1));
            assert(t.last() == v@[i - 1]);
        }
        i -= 1;
    }
    proof {
        let t = v@.take(i as int);
        if i > 0 {
            assert(t.last() == v@[i - 1]);
        }
        assert(after_last(t, c) =~= Seq::<char>::empty());
    }
    string_of(v.as_slice(), i, v.len())
}

/// An ASCII capital as its small letter; any other character as it is.
pub open spec fn lower(c: char) -> char {
    if 'A' <= c <= 'Z' {
        ((c as u8) + 32) as char
    } else {
        c
    }
}

/// Every ASCII capital of `s` as its small letter.
pub open spec fn ascii_lower(s: Seq<char>) -> Seq<char> {
    s.map_values(|c: char| lower(c))
}

fn lower_char(c: char) -> (r: char)
    ensures
        r == lower(c),
{
    if 'A' <= c && c <= 'Z' {
        ((c as u8) + 32) as char
    } else {
        c
    }
}

/// Every ASCII capital of `s` as its small letter.
pub fn ascii_lowercase(s: &str) -> (r: String)
    ensures
        r@ == ascii_lower(s@),
{
    let v = chars_of(s);
    let mut r = String::new();
    let mut i: usize = 0;
    while i < v.len()
        invariant
            i <= v@.len(),
            r@ == ascii_lower(v@.take(i as int)),
        decreases v@.len() - i,
    {
        r.push(lower_char(v[i]));
        i += 1;
        assert(ascii_lower(v@.take(i as int)) =~= ascii_lower(v@.take(i - 1)).push(lower(v@[i - 1])));
    }
    assert(v@.take(i as int) =~= v@);
    r
}

/// The Greek capital sigma, the one letter whose small form depends on where it stands.
pub const CAPITAL_SIGMA: char = '\u{3A3}';

/// The small sigma.
pub const SMALL_SIGMA: char = '\u{3C3}';

/// The small sigma at the end of a word.
pub const FINAL_SIGMA: char = '\u{3C2}';

/// What `str::to_lowercase` makes of a character beyond ASCII, between what stands before and
/// behind it. Only of a capital sigma does it depend on these two.
pub uninterp spec fn unicode_small(c: char, before: Seq<char>, behind: Seq<char>) -> Seq<char>;

/// Whether the capital sigma at position `i` becomes the small one of a word's end.
pub open spec fn is_final(s: Seq<char>, i: int) -> bool {
    unicode_small(CAPITAL_SIGMA, s.take(i), s.skip(i + 1)) == seq![FINAL_SIGMA]
}

/// What becomes of the character at position `i` of `s` in small letters: an ASCII capital turns
/// into its small letter, a capital sigma into one of its two, and what becomes of any other
/// character rests on that character alone.
pub open spec fn small(s: Seq<char>, i: int) -> Seq<char> {
    if s[i] <= '\u{7f}' {
        seq![lower(s[i])]
    } else if s[i] == CAPITAL_SIGMA {
        if is_final(s, i) {
            seq![FINAL_SIGMA]
        } else {
            seq![SMALL_SIGMA]
        }
    } else {
        unicode_small(s[i], seq![], seq![])
    }
}

/// What becomes of the first `n` characters of `s` in small letters.
pub open spec fn small_up_to(s: Seq<char>, n: int) -> Seq<char>
    decreases n,
{
    if n <= 0 {
        seq![]
    } else {
        small_up_to(s, n - 1) + small(s, n - 1)
    }
}

/// `s` in small letters, whatever its script.
pub open spec fn lowercase(s: Seq<char>) -> Seq<char> {
    small_up_to(s, s.len() as int)
}

/// `str::to_lowercase`: the text is turned into small letters character by character. An ASCII
/// capital becomes its small letter and other ASCII stays; a capital sigma becomes a small sigma
/// or, at the end of a word, the final one; what any other character becomes, one character or
/// several, rests on that character alone and is only named: it is what the character becomes
/// when it stands alone.
#[verifier::external_body]
pub(crate) fn to_lowercase(s: &str) -> (r: String)
    ensures
        r@ == lowercase(s@),
        s@.len() == 1 && s@[0] > '\u{7f}' && s@[0] != CAPITAL_SIGMA ==> r@ == unicode_small(
            s@[0],
            seq![],
            seq![],
        ),
{
    s.to_lowercase()
}

/// A text of plain ASCII in small letters: each capital as its small letter.
pub proof fn lemma_lowercase_of_ascii(s: Seq<char>)
    requires
        is_ascii_chars(s),
    ensures
        lowercase(s) == ascii_lower(s),
{
    lemma_small_ascii(s, s.len() as int);
    assert(s.take(s.len() as int) =~= s);
}

proof fn lemma_small_ascii(s: Seq<char>, n: int)
    requires
        is_ascii_chars(s),
        0 <= n <= s.len(),
    ensures
        small_up_to(s, n) == ascii_lower(s.take(n)),
    decreases n,
{
    if n > 0 {
        lemma_small_ascii(s, n - 1);
        assert(s[n - 1] <= '\u{7f}');
        assert(ascii_lower(s.take(n)) =~= ascii_lower(s.take(n - 1)).push(lower(s[n - 1])));
    }
    assert(small_up_to(s, n) =~= ascii_lower(s.take(n)));
}

/// Whether `c` is one of the two small sigmas.
pub open spec fn is_small_sigma(c: char) -> bool {
    c == SMALL_SIGMA || c == FINAL_SIGMA
}

/// Whether two texts are the same but for which of the small sigmas stands where one stands.
pub open spec fn alike(a: Seq<char>, b: Seq<char>) -> bool {
    &&& a.len() == b.len()
    &&& forall|i: int|
        0 <= i < a.len() ==> #[trigger] a[i] == b[i] || is_small_sigma(a[i]) && is_small_sigma(
            b[i],
        )
}

/// Texts that are alike hold the same ASCII texts.
pub proof fn lemma_alike_hold_the_same(a: Seq<char>, b: Seq<char>, pat: Seq<char>)
    requires
        alike(a, b),
        is_ascii_chars(pat),
    ensures
        has(a, pat) == has(b, pat),
{
    assert forall|i: int| occurs_at(a, pat, i) implies occurs_at(b, pat, i) by {
        assert forall|k: int| 0 <= k < pat.len() implies b[i + k] == pat[k] by {
            assert(a.subrange(i, i + pat.len())[k] == pat[k]);
            assert(a[i + k] == b[i + k] || is_small_sigma(a[i + k]));
        }
        assert(b.subrange(i, i + pat.len()) =~= pat);
    }
    assert forall|i: int| occurs_at(b, pat, i) implies occurs_at(a, pat, i) by {
        assert forall|k: int| 0 <= k < pat.len() implies a[i + k] == pat[k] by {
            assert(b.subrange(i, i + pat.len())[k] == pat[k]);
            assert(a[i + k] == b[i + k] || is_small_sigma(b[i + k]));
        }
        assert(a.subrange(i, i + pat.len()) =~= pat);
    }
    if has(a, pat) {
        let i = choose|i: int| occurs_at(a, pat, i);
        assert(occurs_at(b, pat, i));
    }
    if has(b, pat) {
        let i = choose|i: int| occurs_at(b, pat, i);
        assert(occurs_at(a, pat, i));
    }
}

proof fn lemma_alike_joins(a: Seq<char>, b: Seq<char>, c: Seq<char>, d: Seq<char>)
    requires
        alike(a, b),
        alike(c, d),
    ensures
        alike(a + c, b + d),
{
    assert forall|i: int| 0 <= i < (a + c).len() implies #[trigger] (a + c)[i] == (b + d)[i]
        || is_small_sigma((a + c)[i]) && is_small_sigma((b + d)[i]) by {
        if i < a.len() {
            assert(a[i] == b[i] || is_small_sigma(a[i]) && is_small_sigma(b[i]));
        } else {
            let k = i - a.len();
            assert(c[k] == d[k] || is_small_sigma(c[k]) && is_small_sigma(d[k]));
        }
    }
}

/// Characters that ASCII case alone tells apart become alike.
proof fn lemma_small_alike(s: Seq<char>, i: int, t: Seq<char>, j: int)
    requires
        0 <= i < s.len(),
        0 <= j < t.len(),
        lower(s[i]) == lower(t[j]),
    ensures
        alike(small(s, i), small(t, j)),
{
}

/// The small letters of a text put together are alike to the small letters of its parts put
/// together.
pub proof fn lemma_lowercase_of_parts(a: Seq<char>, b: Seq<char>)
    ensures
        alike(lowercase(a + b), lowercase(a) + lowercase(b)),
{
    lemma_small_of_parts(a, b, b.len() as int);
}

proof fn lemma_small_of_first(a: Seq<char>, b: Seq<char>, n: int)
    requires
        0 <= n <= a.len(),
    ensures
        alike(small_up_to(a + b, n), small_up_to(a, n)),
    decreases n,
{
    if n > 0 {
        lemma_small_of_first(a, b, n - 1);
        lemma_small_alike(a + b, n - 1, a, n - 1);
        lemma_alike_joins(
            small_up_to(a + b, n - 1),
            small_up_to(a, n - 1),
            small(a + b, n - 1),
            small(a, n - 1),
        );
    }
}

proof fn lemma_small_of_parts(a: Seq<char>, b: Seq<char>, n: int)
    requires
        0 <= n <= b.len(),
    ensures
        alike(small_up_to(a + b, a.len() + n), lowercase(a) + small_up_to(b, n)),
    decreases n,
{
    let whole = a + b;
    let k = a.len() + n;
    if n == 0 {
        lemma_small_of_first(a, b, a.len() as int);
        assert(lowercase(a) + small_up_to(b, n) =~= lowercase(a));
    } else {
        lemma_small_of_parts(a, b, n - 1);
        lemma_small_alike(whole, k - 1, b, n - 1);
        lemma_alike_joins(
            small_up_to(whole, k - 1),
            lowercase(a) + small_up_to(b, n - 1),
            small(whole, k - 1),
            small(b, n - 1),
        );
        assert(lowercase(a) + small_up_to(b, n) =~= lowercase(a) + small_up_to(b, n - 1) + small(
            b,
            n - 1,
        ));
    }
}

/// Texts that ASCII case alone tells apart have small letters that are alike.
pub proof fn lemma_lowercase_whatever_the_case(a: Seq<char>, b: Seq<char>)
    requires
        ascii_lower(a) == ascii_lower(b),
    ensures
        alike(lowercase(a), lowercase(b)),
{
    assert(ascii_lower(a).len() == a.len());
    assert(ascii_lower(b).len() == b.len());
    lemma_small_whatever_the_case(a, b, a.len() as int);
}

proof fn lemma_small_whatever_the_case(a: Seq<char>, b: Seq<char>, n: int)
    requires
        a.len() == b.len(),
        ascii_lower(a) == ascii_lower(b),
        0 <= n <= a.len(),
    ensures
        alike(small_up_to(a, n), small_up_to(b, n)),
    decreases n,
{
    if n > 0 {
        lemma_small_whatever_the_case(a, b, n - 1);
        assert(ascii_lower(a)[n - 1] == lower(a[n - 1]));
        assert(ascii_lower(b)[n - 1] == lower(b[n - 1]));
        lemma_small_alike(a, n - 1, b, n - 1);
        lemma_alike_joins(
            small_up_to(a, n - 1),
            small_up_to(b, n - 1),
            small(a, n - 1),
            small(b, n - 1),
        );
    }
}

/// Turning ASCII capitals into small letters twice is the same as once.
pub proof fn lemma_ascii_lower_twice(s: Seq<char>)
    ensures
        ascii_lower(ascii_lower(s)) == ascii_lower(s),
{
    let t = ascii_lower(s);
    assert forall|i: int| 0 <= i < t.len() implies lower(#[trigger] t[i]) == t[i] by {
        assert(t[i] == lower(s[i]));
    }
    assert(ascii_lower(t) =~= t);
}

/// Whether `s` ends with `suffix`.
pub fn ends_with(s: &str, suffix: &str) -> (r: bool)
    ensures
        r == suffix@.is_suffix_of(s@),
{
    let v = chars_of(s);
    let p = chars_of(suffix);
    if p.len() > v.len() {
        return false;
    }
    matches_at(v.as_slice(), p.as_slice(), v.len() - p.len())
}

/// Whether `s` starts with `prefix`.
pub fn starts_with(s: &str, prefix: &str) -> (r: bool)
    ensures
        r == prefix@.is_prefix_of(s@),
{
    let v = chars_of(s);
    let p = chars_of(prefix);
    if p.len() > v.len() {
        return false;
    }
    matches_at(v.as_slice(), p.as_slice(), 0)
}

/// What follows `prefix` in a text that starts with it.
pub open spec fn after_prefix(s: Seq<char>, prefix: Seq<char>) -> Option<Seq<char>> {
    if prefix.is_prefix_of(s) {
        Some(s.skip(prefix.len() as int))
    } else {
        None
    }
}

/// What follows `prefix` in a text that starts with it.
pub fn strip_prefix(s: &str, prefix: &str) -> (r: Option<String>)
    ensures
        opt_text(r) == after_prefix(s@, prefix@),
{
    if starts_with(s, prefix) {
        let v = chars_of(s);
        let p = chars_of(prefix);
        let rest = string_of(v.as_slice(), p.len(), v.len());
        assert(rest@ =~= s@.skip(prefix@.len() as int));
        Some(rest)
    } else {
        None
    }
}

/// Whether two texts hold the same characters.
pub fn same(a: &str, b: &str) -> (r: bool)
    ensures
        r == (a@ == b@),
{
    let v = chars_of(a);
    let p = chars_of(b);
    if p.len() != v.len() {
        return false;
    }
    assert(v@.subrange(0, p@.len() as int) =~= v@);
    matches_at(v.as_slice(), p.as_slice(), 0)
}

/// A line without the carriage return that its line break may hold.
pub open spec fn strip_return(s: Seq<char>) -> Seq<char> {
    if s.len() > 0 && s.last() == '\r' {
        s.drop_last()
    } else {
        s
    }
}

/// The lines of `s`: each ends at a line feed, which it does not hold (nor a carriage return just
/// before it); the last may lack the line feed, and is then taken as it stands.
pub open spec fn lines_of(s: Seq<char>) -> Seq<Seq<char>>
    decreases s.len(),
{
    let k = stop_at(s, seq!['\n'], 0);
    if s.len() == 0 {
        Seq::empty()
    } else if k < 0 || k >= s.len() {
        seq![s]
    } else {
        seq![strip_return(s.take(k))] + lines_of(s.skip(k + 1))
    }
}

/// The lines of `s`.
pub fn lines(s: &str) -> (r: Vec<String>)
    ensures
        texts(r@) == lines_of(s@),
{
    let v = chars_of(s);
    let mut out: Vec<String> = Vec::new();
    let stops: Vec<char> = vec!['\n'];
    let n: usize = v.len();
    let mut start: usize = 0;
    assert(stops@ =~= seq!['\n']);
    assert(v@.skip(0) =~= v@);
    assert(texts(out@) =~= Seq::<Seq<char>>::empty());
    while start < n
        invariant
            start <= n,
            n == v@.len(),
            stops@ == seq!['\n'],
            lines_of(v@) =~= texts(out@) + lines_of(v@.skip(start as int)),
        decreases n - start,
    {
        let k: usize = stop_in(v.as_slice(), stops.as_slice(), start);
        let ghost rest = v@.skip(start as int);
        let ghost before = texts(out@);
        proof {
            lemma_stop_skip(v@, stops@, start as int, start as int);
        }
        if k == n {
            let line = string_of(v.as_slice(), start, n);
            assert(line@ =~= rest);
            out.push(line);
            assert(texts(out@) =~= before.push(rest));
            assert(v@.skip(n as int) =~= Seq::<char>::empty());
            start = n;
        } else {
            let end: usize = if k > start && v[k - 1] == '\r' {
                k - 1
            } else {
                k
            };
            let line = string_of(v.as_slice(), start, end);
            assert(line@ =~= strip_return(rest.take(k - start)));
            out.push(line);
            assert(texts(out@) =~= before.push(strip_return(rest.take(k - start))));
            assert(rest.skip(k - start + 1) =~= v@.skip(k + 1));
            start = k + 1;
        }
    }
    assert(v@.skip(n as int) =~= Seq::<char>::empty());
    out
}

/// Where the first stop from `i` on stands does not depend on what was cut off before `from`.
pub proof fn lemma_stop_skip(s: Seq<char>, stops: Seq<char>, from: int, i: int)
    requires
        0 <= from <= i <= s.len(),
    ensures
        stop_at(s.skip(from), stops, i - from) == stop_at(s, stops, i) - from,
    decreases s.len() - i,
{
    if i < s.len() {
        assert(s.skip(from)[i - from] == s[i]);
        if !stops.contains(s[i]) {
            lemma_stop_skip(s, stops, from, i + 1);
        }
    }
}

/// The parts of `s` between the occurrences of `sep`; one more than there are of them.
pub open spec fn pieces_of(s: Seq<char>, sep: char) -> Seq<Seq<char>>
    decreases s.len(),
{
    let k = stop_at(s, seq![sep], 0);
    if k < 0 || k >= s.len() {
        seq![s]
    } else {
        seq![s.take(k)] + pieces_of(s.skip(k + 1), sep)
    }
}

/// The parts of `s` between the occurrences of `sep`.
pub fn pieces(s: &str, sep: char) -> (r: Vec<String>)
    ensures
        texts(r@) == pieces_of(s@, sep),
        r@.len() >= 1,
{
    let v = chars_of(s);
    let mut out: Vec<String> = Vec::new();
    let stops: Vec<char> = vec![sep];
    let n: usize = v.len();
    let mut start: usize = 0;
    assert(stops@ =~= seq![sep]);
    assert(v@.skip(0) =~= v@);
    assert(texts(out@) =~= Seq::<Seq<char>>::empty());
    loop
        invariant
            start <= n,
            n == v@.len(),
            v@ == s@,
            stops@ == seq![sep],
            pieces_of(v@, sep) =~= texts(out@) + pieces_of(v@.skip(start as int), sep),
        decreases n - start,
    {
        let k: usize = stop_in(v.as_slice(), stops.as_slice(), start);
        let ghost rest = v@.skip(start as int);
        let ghost before = texts(out@);
        proof {
            lemma_stop_skip(v@, stops@, start as int, start as int);
        }
        let part = string_of(v.as_slice(), start, k);
        assert(part@ =~= rest.take(k - start));
        out.push(part);
        assert(texts(out@) =~= before.push(rest.take(k - start)));
        if k == n {
            assert(rest.take(k - start) =~= rest);
            return out;
        }
        assert(rest.skip(k - start + 1) =~= v@.skip(k + 1));
        start = k + 1;
    }
}

/// What stands before and after the first `sep`.
pub open spec fn cut_at(s: Seq<char>, sep: char) -> Option<(Seq<char>, Seq<char>)> {
    let k = stop_at(s, seq![sep], 0);
    if k < s.len() {
        Some((s.take(k), s.skip(k + 1)))
    } else {
        None
    }
}

/// What stands before and after the first `sep`.
pub fn cut(s: &str, sep: char) -> (r: Option<(String, String)>)
    ensures
        match r {
            Some((a, b)) => cut_at(s@, sep) == Some((a@, b@)),
            None => cut_at(s@, sep) is None,
        },
{
    let v = chars_of(s);
    let n: usize = v.len();
    let stops: Vec<char> = vec![sep];
    assert(stops@ =~= seq![sep]);
    let k: usize = stop_in(v.as_slice(), stops.as_slice(), 0);
    if k == n {
        None
    } else {
        let a = string_of(v.as_slice(), 0, k);
        let b = string_of(v.as_slice(), k + 1, n);
        assert(a@ =~= s@.take(k as int));
        assert(b@ =~= s@.skip(k + 1));
        Some((a, b))
    }
}

/// Whether `c` is white space, as the Unicode property `White_Space` has it.
pub open spec fn is_white(c: char) -> bool {
    ||| '\u{9}' <= c <= '\u{D}'
    ||| c == ' '
    ||| c == '\u{85}'
    ||| c == '\u{A0}'
    ||| c == '\u{1680}'
    ||| '\u{2000}' <= c <= '\u{200A}'
    ||| c == '\u{2028}'
    ||| c == '\u{2029}'
    ||| c == '\u{202F}'
    ||| c == '\u{205F}'
    ||| c == '\u{3000}'
}

fn white(c: char) -> (r: bool)
    ensures
        r == is_white(c),
{
    ('\u{9}' <= c && c <= '\u{D}') || c == ' ' || c == '\u{85}' || c == '\u{A0}' || c == '\u{1680}'
        || ('\u{2000}' <= c && c <= '\u{200A}') || c == '\u{2028}' || c == '\u{2029}' || c
        == '\u{202F}' || c == '\u{205F}' || c == '\u{3000}'
}

/// `s` without its leading white space.
pub open spec fn trim_start(s: Seq<char>) -> Seq<char>
    decreases s.len(),
{
    if s.len() > 0 && is_white(s[0]) {
        trim_start(s.drop_first())
    } else {
        s
    }
}

/// `s` without its trailing white space.
pub open spec fn trim_end(s: Seq<char>) -> Seq<char>
    decreases s.len(),
{
    if s.len() > 0 && is_white(s.last()) {
        trim_end(s.drop_last())
    } else {
        s
    }
}

/// `s` without the white space around it.
pub open spec fn trimmed(s: Seq<char>) -> Seq<char> {
    trim_end(trim_start(s))
}

/// `s` without the white space around it.
pub fn trim(s: &str) -> (r: String)
    ensures
        r@ == trimmed(s@),
{
    let v = chars_of(s);
    let mut a: usize = 0;
    assert(v@.skip(0) =~= v@);
    while a < v.len() && white(v[a])
        invariant
            a <= v@.len(),
            trim_start(v@) == trim_start(v@.skip(a as int)),
        decreases v@.len() - a,
    {
        assert(v@.skip(a as int).drop_first() =~= v@.skip(a + 1));
        a += 1;
    }
    let ghost t = v@.skip(a as int);
    assert(trim_start(v@) == t);
    let mut b: usize = v.len();
    assert(v@.subrange(a as int, b as int) =~= t);
    while b > a && white(v[b - 1])
        invariant
            a <= b <= v@.len(),
            trim_end(t) == trim_end(v@.subrange(a as int, b as int)),
        decreases b,
    {
        let ghost u = v@.subrange(a as int, b as int);
        assert(u.drop_last() =~= v@.subrange(a as int, b - 1));
        assert(u.last() == v@[b - 1]);
        b -= 1;
    }
    proof {
        let u = v@.subrange(a as int, b as int);
        if b > a {
            assert(u.last() == v@[b - 1]);
        }
    }
    string_of(v.as_slice(), a, b)
}

/// The first position from `i` on that holds white space, or the end of `s`.
pub open spec fn white_at(s: Seq<char>, i: int) -> int
    decreases s.len() - i,
{
    if i < 0 || i >= s.len() {
        s.len() as int
    } else if is_white(s[i]) {
        i
    } else {
        white_at(s, i + 1)
    }
}

/// The words of `s`: its longest stretches without white space.
pub open spec fn words_of(s: Seq<char>) -> Seq<Seq<char>>
    decreases s.len(),
{
    if s.len() == 0 {
        Seq::empty()
    } else if is_white(s[0]) {
        words_of(s.drop_first())
    } else {
        let k = white_at(s, 1);
        if 0 < k <= s.len() {
            seq![s.take(k)] + words_of(s.skip(k))
        } else {
            Seq::empty()
        }
    }
}

proof fn lemma_white_skip(s: Seq<char>, from: int, i: int)
    requires
        0 <= from <= i <= s.len(),
    ensures
        white_at(s.skip(from), i - from) == white_at(s, i) - from,
        i <= white_at(s, i) <= s.len(),
    decreases s.len() - i,
{
    if i < s.len() {
        assert(s.skip(from)[i - from] == s[i]);
        if !is_white(s[i]) {
            lemma_white_skip(s, from, i + 1);
        }
    }
}

/// The words of `s`.
pub fn words(s: &str) -> (r: Vec<String>)
    ensures
        texts(r@) == words_of(s@),
{
    let v = chars_of(s);
    let mut out: Vec<String> = Vec::new();
    let n: usize = v.len();
    let mut start: usize = 0;
    assert(v@.skip(0) =~= v@);
    assert(texts(out@) =~= Seq::<Seq<char>>::empty());
    while start < n
        invariant
            start <= n,
            n == v@.len(),
            words_of(v@) =~= texts(out@) + words_of(v@.skip(start as int)),
        decreases n - start,
    {
        let ghost rest = v@.skip(start as int);
        let ghost before = texts(out@);
        if white(v[start]) {
            assert(rest.drop_first() =~= v@.skip(start + 1));
            start += 1;
        } else {
            let mut k: usize = start + 1;
            while k < n && !white(v[k])
                invariant
                    start < k <= n,
                    n == v@.len(),
                    white_at(v@, start + 1) == white_at(v@, k as int),
                decreases n - k,
            {
                k += 1;
            }
            proof {
                lemma_white_skip(v@, start as int, start + 1);
            }
            let word = string_of(v.as_slice(), start, k);
            assert(word@ =~= rest.take(k - start));
            out.push(word);
            assert(texts(out@) =~= before.push(rest.take(k - start)));
            assert(rest.skip(k - start) =~= v@.skip(k as int));
            start = k;
        }
    }
    assert(v@.skip(n as int) =~= Seq::<char>::empty());
    out
}

/// `s` without the occurrences of `pat`, taken from the left.
pub open spec fn without(s: Seq<char>, pat: Seq<char>) -> Seq<char>
    decreases s.len(),
{
    match find(s, pat) {
        Some(i) => if 0 <= i && pat.len() > 0 && i + pat.len() <= s.len() {
            s.take(i) + without(s.skip(i + pat.len()), pat)
        } else {
            s
        },
        None => s,
    }
}

proof fn lemma_find_skip(s: Seq<char>, pat: Seq<char>, from: int, i: int)
    requires
        0 <= from <= i <= s.len(),
    ensures
        match (find_from(s.skip(from), pat, i - from), find_from(s, pat, i)) {
            (Some(a), Some(b)) => a == b - from,
            (None, None) => true,
            _ => false,
        },
    decreases s.len() - i + 1,
{
    if i + pat.len() <= s.len() {
        assert(s.skip(from).subrange(i - from, i - from + pat.len()) =~= s.subrange(
            i,
            i + pat.len(),
        ));
        if !occurs_at(s, pat, i) {
            if i < s.len() {
                lemma_find_skip(s, pat, from, i + 1);
            } else {
                assert(s.subrange(i, i + pat.len()) =~= pat);
            }
        }
    }
}

/// `s` without the occurrences of `pat`.
pub fn remove_all(s: &str, pat: &str) -> (r: String)
    requires
        pat@.len() > 0,
    ensures
        r@ == without(s@, pat@),
{
    let v = chars_of(s);
    let p = chars_of(pat);
    let n: usize = v.len();
    let mut out = String::new();
    let mut start: usize = 0;
    assert(v@.skip(0) =~= v@);
    loop
        invariant
            start <= n,
            n == v@.len(),
            v@ == s@,
            p@ == pat@,
            pat@.len() > 0,
            without(v@, pat@) =~= out@ + without(v@.skip(start as int), pat@),
        decreases n - start,
    {
        let ghost rest = v@.skip(start as int);
        let ghost before = out@;
        proof {
            lemma_find_skip(v@, pat@, start as int, start as int);
            lemma_find_from(v@, pat@, start as int);
        }
        match find_in(v.as_slice(), p.as_slice(), start) {
            None => {
                let tail = string_of(v.as_slice(), start, n);
                assert(tail@ =~= rest);
                out.append(tail.as_str());
                return out;
            },
            Some(k) => {
                let part = string_of(v.as_slice(), start, k);
                assert(part@ =~= rest.take(k - start));
                out.append(part.as_str());
                assert(rest.skip(k - start + pat@.len()) =~= v@.skip(k + pat@.len()));
                start = k + p.len();
            },
        }
    }
}

/// The parts one after the other, with `sep` between each two.
pub open spec fn joined(parts: Seq<Seq<char>>, sep: Seq<char>) -> Seq<char>
    decreases parts.len(),
{
    if parts.len() == 0 {
        Seq::empty()
    } else if parts.len() == 1 {
        parts[0]
    } else {
        joined(parts.drop_last(), sep) + sep + parts.last()
    }
}

/// The parts one after the other, with `sep` between each two.
pub fn join(parts: &[String], sep: &str) -> (r: String)
    ensures
        r@ == joined(texts(parts@), sep@),
{
    let mut out = String::new();
    let mut i: usize = 0;
    while i < parts.len()
        invariant
            i <= parts@.len(),
            out@ == joined(texts(parts@).take(i as int), sep@),
        decreases parts@.len() - i,
    {
        let ghost t = texts(parts@).take(i + 1);
        assert(t.drop_last() =~= texts(parts@).take(i as int));
        assert(t.last() == parts@[i as int]@);
        if i > 0 {
            out.append(sep);
        }
        out.append(parts[i].as_str());
        proof {
            if i == 0 {
                assert(out@ =~= t[0]);
            }
        }
        i += 1;
    }
    assert(texts(parts@).take(i as int) =~= texts(parts@));
    out
}

/// Two texts, one after the other.
pub fn cat(a: &str, b: &str) -> (r: String)
    ensures
        r@ == a@ + b@,
{
    a.to_owned().concat(b)
}

/// Three texts, one after the other.
pub fn cat3(a: &str, b: &str, c: &str) -> (r: String)
    ensures
        r@ == a@ + b@ + c@,
{
    a.to_owned().concat(b).concat(c)
}

/// Four texts, one after the other.
pub fn cat4(a: &str, b: &str, c: &str, d: &str) -> (r: String)
    ensures
        r@ == a@ + b@ + c@ + d@,
{
    a.to_owned().concat(b).concat(c).concat(d)
}

/// Five texts, one after the other.
pub fn cat5(a: &str, b: &str, c: &str, d: &str, e: &str) -> (r: String)
    ensures
        r@ == a@ + b@ + c@ + d@ + e@,
{
    a.to_owned().concat(b).concat(c).concat(d).concat(e)
}

/// The text that may be absent, borrowed as it stands.
pub fn borrow(o: &Option<String>) -> (r: Option<&str>)
    ensures
        match (r, *o) {
            (Some(a), Some(b)) => a@ == b@,
            (None, None) => true,
            _ => false,
        },
{
    match o {
        Some(s) => Some(s.as_str()),
        None => None,
    }
}

/// A text that may be absent, once more.
pub fn copy_opt(o: &Option<String>) -> (r: Option<String>)
    ensures
        r == *o,
{
    match o {
        Some(s) => Some(s.clone()),
        None => None,
    }
}

/// The characters of a borrowed text that may be absent.
pub open spec fn opt_str(o: Option<&str>) -> Option<Seq<char>> {
    match o {
        Some(s) => Some(s@),
        None => None,
    }
}

/// One more text at the end of a list.
pub fn put(list: &mut Vec<String>, s: &str)
    ensures
        texts(final(list)@) == texts(old(list)@).push(s@),
{
    let ghost before = list@;
    list.push(s.to_owned());
    assert(texts(list@) =~= texts(before).push(s@));
}

/// More texts at the end of a list.
pub fn extend(list: &mut Vec<String>, more: &[String])
    ensures
        texts(final(list)@) == texts(old(list)@) + texts(more@),
{
    let ghost before = list@;
    let mut i: usize = 0;
    assert(texts(more@).take(0) =~= Seq::<Seq<char>>::empty());
    assert(texts(list@) =~= texts(before) + texts(more@).take(0));
    while i < more.len()
        invariant
            i <= more@.len(),
            texts(list@) == texts(before) + texts(more@).take(i as int),
        decreases more@.len() - i,
    {
        put(list, more[i].as_str());
        i += 1;
        assert(texts(more@).take(i as int) =~= texts(more@).take(i - 1).push(more@[i - 1]@));
        assert(texts(list@) =~= texts(before) + texts(more@).take(i as int));
    }
    assert(texts(more@).take(i as int) =~= texts(more@));
}

/// A list of texts, once more.
pub fn copy_list(list: &[String]) -> (r: Vec<String>)
    ensures
        texts(r@) == texts(list@),
{
    let mut out: Vec<String> = Vec::new();
    extend(&mut out, list);
    assert(texts(out@) =~= texts(list@));
    out
}

/// Whether a list holds a text.
pub fn listed(list: &[String], s: &str) -> (r: bool)
    ensures
        r == texts(list@).contains(s@),
{
    let mut i: usize = 0;
    while i < list.len()
        invariant
            i <= list@.len(),
            forall|j: int| 0 <= j < i ==> texts(list@)[j] != s@,
        decreases list@.len() - i,
    {
        if same(list[i].as_str(), s) {
            assert(texts(list@)[i as int] == s@);
            return true;
        }
        i += 1;
    }
    false
}

/// A first occurrence stays the first when text is added behind it.
pub proof fn lemma_find_extends(s: Seq<char>, tail: Seq<char>, pat: Seq<char>)
    requires
        find(s, pat) is Some,
    ensures
        find(s + tail, pat) == find(s, pat),
{
    lemma_find_from(s, pat, 0);
    lemma_find_from(s + tail, pat, 0);
    let i = find(s, pat).unwrap();
    assert((s + tail).subrange(i, i + pat.len()) =~= s.subrange(i, i + pat.len()));
    assert(occurs_at(s + tail, pat, i));
    let j = find(s + tail, pat).unwrap();
    if j < i {
        assert((s + tail).subrange(j, j + pat.len()) =~= s.subrange(j, j + pat.len()));
        assert(occurs_at(s, pat, j));
    }
}

/// Where no stop stands in a text from `i` on, the first one in a longer text is the one at the
/// head of what was added.
pub proof fn lemma_stop_extends(s: Seq<char>, tail: Seq<char>, stops: Seq<char>, i: int)
    requires
        0 <= i <= s.len(),
        stop_at(s, stops, i) == s.len(),
        tail.len() == 0 || stops.contains(tail[0]),
    ensures
        stop_at(s + tail, stops, i) == s.len(),
    decreases s.len() - i,
{
    let all = s + tail;
    if i < s.len() {
        assert(all[i] == s[i]);
        lemma_stop_at(s, stops, i);
        lemma_stop_extends(s, tail, stops, i + 1);
    } else if tail.len() > 0 {
        assert(all[i] == tail[0]);
    }
}

/// A first occurrence that lies within the first `n` characters is the first there too.
pub proof fn lemma_find_in_prefix(s: Seq<char>, n: int, pat: Seq<char>)
    requires
        0 <= n <= s.len(),
        find(s, pat) is Some,
        find(s, pat).unwrap() + pat.len() <= n,
    ensures
        find(s.take(n), pat) == find(s, pat),
{
    let head = s.take(n);
    lemma_find_from(s, pat, 0);
    lemma_find_from(head, pat, 0);
    let i = find(s, pat).unwrap();
    assert(head.subrange(i, i + pat.len()) =~= s.subrange(i, i + pat.len()));
    assert(occurs_at(head, pat, i));
    let j = find(head, pat).unwrap();
    assert(s.subrange(j, j + pat.len()) =~= head.subrange(j, j + pat.len()));
    assert(occurs_at(s, pat, j));
}

/// What does not stand in a text does not stand in its first `n` characters.
pub proof fn lemma_absent_in_prefix(s: Seq<char>, n: int, pat: Seq<char>)
    requires
        0 <= n <= s.len(),
    ensures
        find(s, pat) is None ==> find(s.take(n), pat) is None,
{
    let head = s.take(n);
    lemma_find_from(s, pat, 0);
    lemma_find_from(head, pat, 0);
    if let Some(j) = find(head, pat) {
        assert(s.subrange(j, j + pat.len()) =~= head.subrange(j, j + pat.len()));
        assert(occurs_at(s, pat, j));
    }
}

/// No line of a text holds a line feed.
pub proof fn lemma_lines_hold_no_feed(s: Seq<char>)
    ensures
        forall|i: int|
            0 <= i < lines_of(s).len() ==> !(#[trigger] lines_of(s)[i]).contains('\n'),
    decreases s.len(),
{
    let stops = seq!['\n'];
    let k = stop_at(s, stops, 0);
    lemma_stop_at(s, stops, 0);
    assert(stops.contains('\n')) by {
        assert(stops[0] == '\n');
    }
    if s.len() == 0 {
    } else if k >= s.len() {
        assert(lines_of(s) =~= seq![s]);
        assert forall|j: int| 0 <= j < s.len() implies s[j] != '\n' by {
            assert(!stops.contains(s[j]));
        }
    } else {
        lemma_lines_hold_no_feed(s.skip(k + 1));
        let line = s.take(k);
        assert forall|j: int| 0 <= j < line.len() implies line[j] != '\n' by {
            assert(line[j] == s[j]);
            assert(!stops.contains(s[j]));
        }
        let rest = lines_of(s.skip(k + 1));
        assert(lines_of(s) =~= seq![strip_return(line)] + rest);
        assert forall|i: int| 0 <= i < lines_of(s).len() implies !(#[trigger] lines_of(s)[i]).contains('\n') by {
            if i > 0 {
                assert(lines_of(s)[i] == rest[i - 1]);
            }
        }
    }
}

/// What a text does not hold, it does not hold when trimmed.
pub proof fn lemma_trimming_adds_nothing(s: Seq<char>, c: char)
    requires
        !s.contains(c),
    ensures
        !trimmed(s).contains(c),
{
    lemma_trim_start_adds_nothing(s, c);
    lemma_trim_end_adds_nothing(trim_start(s), c);
}

proof fn lemma_trim_start_adds_nothing(s: Seq<char>, c: char)
    requires
        !s.contains(c),
    ensures
        !trim_start(s).contains(c),
    decreases s.len(),
{
    if s.len() > 0 && is_white(s[0]) {
        let rest = s.drop_first();
        assert forall|j: int| 0 <= j < rest.len() implies rest[j] != c by {
            assert(rest[j] == s[j + 1]);
        }
        lemma_trim_start_adds_nothing(rest, c);
    }
}

proof fn lemma_trim_end_adds_nothing(s: Seq<char>, c: char)
    requires
        !s.contains(c),
    ensures
        !trim_end(s).contains(c),
    decreases s.len(),
{
    if s.len() > 0 && is_white(s.last()) {
        let rest = s.drop_last();
        assert forall|j: int| 0 <= j < rest.len() implies rest[j] != c by {
            assert(rest[j] == s[j]);
        }
        lemma_trim_end_adds_nothing(rest, c);
    }
}

/// A character that neither the parts nor the separator hold is not in the joined text.
pub proof fn lemma_joining_adds_only_separators(
    parts: Seq<Seq<char>>,
    sep: Seq<char>,
    c: char,
)
    requires
        forall|i: int| 0 <= i < parts.len() ==> !(#[trigger] parts[i]).contains(c),
        !sep.contains(c),
    ensures
        !joined(parts, sep).contains(c),
    decreases parts.len(),
{
    if parts.len() > 1 {
        let prior = parts.drop_last();
        assert forall|i: int| 0 <= i < prior.len() implies !(#[trigger] prior[i]).contains(c) by {
            assert(prior[i] == parts[i]);
        }
        lemma_joining_adds_only_separators(prior, sep, c);
        let head = joined(prior, sep);
        let last = parts[parts.len() - 1];
        let whole = head + sep + last;
        assert(joined(parts, sep) =~= whole);
        assert forall|j: int| 0 <= j < whole.len() implies whole[j] != c by {
            if j < head.len() {
                assert(head.contains(head[j]));
            } else if j < head.len() + sep.len() {
                assert(sep.contains(sep[j - head.len()]));
            } else {
                assert(last.contains(last[j - head.len() - sep.len()]));
            }
        }
    }
}

/// Where the last `n` characters do not hold `c`, what follows the last `c` has at least `n`.
pub proof fn lemma_after_last_reaches(s: Seq<char>, c: char, n: nat)
    requires
        n <= s.len(),
        !s.skip(s.len() - n).contains(c),
    ensures
        after_last(s, c).len() >= n,
    decreases n,
{
    if n > 0 {
        let tail = s.skip(s.len() - n);
        assert(tail[n - 1] == s.last());
        assert(tail.contains(s.last()));
        let prior = s.drop_last();
        let rest = prior.skip(prior.len() - (n - 1));
        assert forall|j: int| 0 <= j < rest.len() implies rest[j] != c by {
            assert(rest[j] == tail[j]);
            assert(tail.contains(tail[j]));
        }
        lemma_after_last_reaches(prior, c, (n - 1) as nat);
    }
}

proof fn lemma_stop_behind(s: Seq<char>, sep: char, rest: Seq<char>)
    requires
        !s.contains(sep),
    ensures
        stop_at(s, seq![sep], 0) == s.len(),
        stop_at(s + seq![sep] + rest, seq![sep], 0) == s.len(),
{
    let stops = seq![sep];
    let whole = s + stops + rest;
    lemma_stop_at(s, stops, 0);
    let k = stop_at(s, stops, 0);
    if k < s.len() {
        assert(stops.contains(s[k]));
        assert(s.contains(s[k]));
    }
    assert(stops[0] == sep);
    assert(stops.contains((stops + rest)[0]));
    lemma_stop_extends(s, stops + rest, stops, 0);
    assert(s + (stops + rest) =~= whole);
}

/// A text that does not hold the separator is the first piece before one.
pub proof fn lemma_first_piece(s: Seq<char>, sep: char, rest: Seq<char>)
    requires
        !s.contains(sep),
    ensures
        pieces_of(s, sep) == seq![s],
        pieces_of(s + seq![sep] + rest, sep) == seq![s] + pieces_of(rest, sep),
        cut_at(s + seq![sep] + rest, sep) == Some((s, rest)),
{
    let whole = s + seq![sep] + rest;
    lemma_stop_behind(s, sep, rest);
    assert(whole.take(s.len() as int) =~= s);
    assert(whole.skip((s.len() + 1) as int) =~= rest);
}

/// Whether a text is one word: not empty, and without white space.
pub open spec fn is_word(s: Seq<char>) -> bool {
    s.len() > 0 && forall|i: int| 0 <= i < s.len() ==> !is_white(#[trigger] s[i])
}

proof fn lemma_white_behind(s: Seq<char>, rest: Seq<char>, i: int)
    requires
        0 <= i <= s.len(),
        forall|j: int| 0 <= j < s.len() ==> !is_white(#[trigger] s[j]),
        rest.len() == 0 || is_white(rest[0]),
    ensures
        white_at(s + rest, i) == s.len(),
    decreases s.len() - i,
{
    if i < s.len() {
        assert((s + rest)[i] == s[i]);
        lemma_white_behind(s, rest, i + 1);
    } else if rest.len() > 0 {
        assert((s + rest)[i] == rest[0]);
    }
}

/// A word before a blank is the first word.
pub proof fn lemma_first_word(s: Seq<char>, rest: Seq<char>)
    requires
        is_word(s),
    ensures
        words_of(s) == seq![s],
        words_of(s + seq![' '] + rest) == seq![s] + words_of(rest),
{
    let blank = seq![' '] + rest;
    let whole = s + seq![' '] + rest;
    assert(whole =~= s + blank);
    lemma_white_behind(s, blank, 0);
    assert(whole[0] == s[0]);
    assert(!is_white(s[0]));
    assert(whole.take(s.len() as int) =~= s);
    assert(whole.skip(s.len() as int) =~= blank);
    assert(blank.drop_first() =~= rest);
    assert(is_white(blank[0]));
    assert(words_of(blank) == words_of(rest));
    lemma_white_behind(s, seq![], 0);
    assert(s + seq![] =~= s);
    assert(s.take(s.len() as int) =~= s);
    assert(s.skip(s.len() as int) =~= seq![]);
    assert(words_of(s.skip(s.len() as int)) =~= seq![]);
}

/// What stands in a text still stands in it when something is put before or behind it.
pub proof fn lemma_has_extends(a: Seq<char>, b: Seq<char>, pat: Seq<char>)
    ensures
        has(a, pat) ==> has(a + b, pat),
        has(b, pat) ==> has(a + b, pat),
{
    let whole = a + b;
    if has(a, pat) {
        let i = choose|i: int| occurs_at(a, pat, i);
        assert(whole.subrange(i, i + pat.len()) =~= a.subrange(i, i + pat.len()));
        assert(occurs_at(whole, pat, i));
    }
    if has(b, pat) {
        let i = choose|i: int| occurs_at(b, pat, i);
        let k = a.len() + i;
        assert(whole.subrange(k, k + pat.len()) =~= b.subrange(i, i + pat.len()));
        assert(occurs_at(whole, pat, k));
    }
}

/// Trimming a text keeps what it ends with, where that neither starts nor ends with white space.
pub proof fn lemma_trimming_keeps_suffix(s: Seq<char>, suffix: Seq<char>)
    requires
        suffix.is_suffix_of(s),
        suffix.len() > 0,
        !is_white(suffix[0]),
        !is_white(suffix.last()),
    ensures
        suffix.is_suffix_of(trimmed(s)),
{
    lemma_trim_start_keeps_suffix(s, suffix);
    let t = trim_start(s);
    assert(t.skip(t.len() - suffix.len()).last() == suffix.last());
    assert(t.last() == suffix.last());
    assert(trim_end(t) == t);
}

proof fn lemma_trim_start_keeps_suffix(s: Seq<char>, suffix: Seq<char>)
    requires
        suffix.is_suffix_of(s),
        suffix.len() > 0,
        !is_white(suffix[0]),
    ensures
        suffix.is_suffix_of(trim_start(s)),
    decreases s.len(),
{
    if s.len() > 0 && is_white(s[0]) {
        let rest = s.drop_first();
        assert(s.skip(s.len() - suffix.len())[0] == suffix[0]);
        assert(s.len() > suffix.len());
        assert(rest.skip(rest.len() - suffix.len()) =~= s.skip(s.len() - suffix.len()));
        lemma_trim_start_keeps_suffix(rest, suffix);
    }
}

/// Whether `k` is the first position at which two texts differ, and `a` has the lower character
/// there.
pub open spec fn lower_at(a: Seq<char>, b: Seq<char>, k: int) -> bool {
    &&& 0 <= k < a.len()
    &&& k < b.len()
    &&& a.take(k) == b.take(k)
    &&& a[k] < b[k]
}

/// Whether `a` comes before `b` in the order of strings: it has the lower character where they
/// first differ, or `b` goes on where `a` ends.
pub open spec fn precedes(a: Seq<char>, b: Seq<char>) -> bool {
    ||| exists|k: int| lower_at(a, b, k)
    ||| a.len() < b.len() && a.is_prefix_of(b)
}

/// What is read from an item of a list stands among what is read from all of them.
pub proof fn lemma_read_from_each<A, B>(v: Seq<A>, f: spec_fn(A) -> Option<B>, i: int)
    requires
        0 <= i < v.len(),
        f(v[i]) is Some,
    ensures
        v.filter_map(f).contains(f(v[i]).unwrap()),
    decreases v.len(),
{
    reveal(Seq::filter_map);
    let prior = v.drop_last();
    let out = v.filter_map(f);
    let before = prior.filter_map(f);
    if i < prior.len() {
        assert(prior[i] == v[i]);
        lemma_read_from_each(prior, f, i);
        let k = choose|k: int| 0 <= k < before.len() && before[k] == f(v[i]).unwrap();
        assert(out[k] == before[k]);
    } else {
        assert(out[out.len() - 1] == f(v[i]).unwrap());
    }
}

/// Trimming takes off the white space around a text and nothing else.
pub proof fn law_trimming_takes_off_the_blanks(before: Seq<char>, s: Seq<char>, behind: Seq<char>)
    requires
        forall|i: int| 0 <= i < before.len() ==> is_white(#[trigger] before[i]),
        forall|i: int| 0 <= i < behind.len() ==> is_white(#[trigger] behind[i]),
        s.len() > 0 ==> !is_white(s[0]) && !is_white(s.last()),
    ensures
        trimmed(before + s + behind) == s,
{
    let whole = before + s + behind;
    if s.len() == 0 {
        assert forall|i: int| 0 <= i < whole.len() implies is_white(#[trigger] whole[i]) by {
            if i < before.len() {
                assert(before[i] == whole[i]);
            } else {
                assert(behind[i - before.len()] == whole[i]);
            }
        }
        lemma_trim_start_at(whole, whole.len() as int);
        assert(whole.skip(whole.len() as int) =~= s);
    } else {
        let rest = s + behind;
        assert forall|i: int| 0 <= i < before.len() implies is_white(#[trigger] whole[i]) by {
            assert(before[i] == whole[i]);
        }
        assert(whole[before.len() as int] == s[0]);
        lemma_trim_start_at(whole, before.len() as int);
        assert(whole.skip(before.len() as int) =~= rest);
        lemma_trim_end_at(s, behind);
    }
}

proof fn lemma_trim_start_at(s: Seq<char>, n: int)
    requires
        0 <= n <= s.len(),
        forall|i: int| 0 <= i < n ==> is_white(#[trigger] s[i]),
        n < s.len() ==> !is_white(s[n]),
    ensures
        trim_start(s) == s.skip(n),
    decreases n,
{
    if n > 0 {
        let rest = s.drop_first();
        assert(is_white(s[0]));
        assert forall|i: int| 0 <= i < n - 1 implies is_white(#[trigger] rest[i]) by {
            assert(is_white(s[i + 1]));
        }
        lemma_trim_start_at(rest, n - 1);
        assert(rest.skip(n - 1) =~= s.skip(n));
    } else {
        assert(s.skip(0) =~= s);
    }
}

proof fn lemma_trim_end_at(s: Seq<char>, behind: Seq<char>)
    requires
        s.len() > 0,
        !is_white(s.last()),
        forall|i: int| 0 <= i < behind.len() ==> is_white(#[trigger] behind[i]),
    ensures
        trim_end(s + behind) == s,
    decreases behind.len(),
{
    let whole = s + behind;
    if behind.len() > 0 {
        assert(whole.last() == behind[behind.len() - 1]);
        assert(whole.drop_last() =~= s + behind.drop_last());
        lemma_trim_end_at(s, behind.drop_last());
    } else {
        assert(whole =~= s);
    }
}

/// Joining puts the separator between each two parts and nowhere else.
pub proof fn law_joining_separates_the_parts(
    parts: Seq<Seq<char>>,
    part: Seq<char>,
    sep: Seq<char>,
)
    ensures
        joined(seq![], sep) == Seq::<char>::empty(),
        joined(seq![part], sep) == part,
        parts.len() > 0 ==> joined(parts.push(part), sep) == joined(parts, sep) + sep + part,
{
    if parts.len() > 0 {
        assert(parts.push(part).drop_last() =~= parts);
    }
}

/// A text is found exactly where it stands: it is found in every text that holds it, and where it
/// is found, it stands there and nowhere before.
pub proof fn law_what_stands_in_a_text_is_found(
    before: Seq<char>,
    pat: Seq<char>,
    behind: Seq<char>,
    s: Seq<char>,
)
    ensures
        has(before + pat + behind, pat),
        has(s, pat) ==> exists|a: Seq<char>, b: Seq<char>| s == #[trigger] (a + pat + b),
        after_first(s, pat) is Some <==> has(s, pat),
        after_first(s, pat) is Some ==> exists|a: Seq<char>|
            s == #[trigger] (a + pat + after_first(s, pat).unwrap()) && first_at(
                s,
                pat,
                a.len() as int,
            ),
{
    let whole = before + pat + behind;
    let n = before.len() as int;
    assert(whole.subrange(n, n + pat.len()) =~= pat);
    assert(occurs_at(whole, pat, n));
    lemma_find_is_first(s, pat);
    if let Some(i) = find(s, pat) {
        let a = s.take(i);
        let b = s.skip(i + pat.len());
        assert(s =~= a + pat + b);
        assert(after_first(s, pat).unwrap() == b);
        assert(s == a + pat + after_first(s, pat).unwrap());
        assert(first_at(s, pat, a.len() as int));
    }
}

/// A capital of ASCII becomes the small letter that stands thirty-two places behind it; every
/// other character stays, and so does the length of a text.
pub proof fn law_capitals_become_small_letters(s: Seq<char>, i: int)
    requires
        0 <= i < s.len(),
    ensures
        ascii_lower(s).len() == s.len(),
        'A' <= s[i] <= 'Z' ==> ascii_lower(s)[i] as int == s[i] as int + 32,
        !('A' <= s[i] <= 'Z') ==> ascii_lower(s)[i] == s[i],
{
}

} // verus!
