use vstd::prelude::*;
use vstd::utf8::encode_utf8;

verus! {

// ---------------------------------------------------------------------------
// Building strings
// ---------------------------------------------------------------------------

/// Appends one character to a `String` (std's `String::push`): the new
/// contents are the old contents followed by `c`.
#[verifier::external_body]
pub(crate) fn push_char(s: &mut String, c: char)
    ensures
        final(s)@ == old(s)@.push(c),
{
    s.push(c);
}

/// Appends `other` to `s`.
pub fn push_str(s: &mut String, other: &str)
    ensures
        final(s)@ == old(s)@ + other@,
{
    let ghost start = s@;
    for c in it: other.chars()
        invariant
            it.seq() == other@,
            s@ == start + other@.take(it.index() as int),
    {
        push_char(s, c);
        assert(other@.take(it.index() + 1) == other@.take(it.index() as int).push(c));
    }
    assert(other@.take(other@.len() as int) == other@);
}

/// The characters of `s`, in order.
pub fn to_chars(s: &str) -> (v: Vec<char>)
    ensures
        v@ == s@,
{
    let mut v: Vec<char> = Vec::new();
    for c in it: s.chars()
        invariant
            v@ == it.seq().take(it.index() as int),
            it.seq() == s@,
    {
        v.push(c);
    }
    v
}

/// A `String` holding exactly the characters of `chars`.
pub fn from_chars(chars: &[char]) -> (s: String)
    ensures
        s@ == chars@,
{
    let mut s = String::new();
    let mut i: usize = 0;
    while i < chars.len()
        invariant
            i <= chars.len(),
            s@ == chars@.take(i as int),
        decreases chars.len() - i,
    {
        push_char(&mut s, chars[i]);
        assert(chars@.take(i + 1) == chars@.take(i as int).push(chars@[i as int]));
        i = i + 1;
    }
    assert(chars@.take(chars.len() as int) == chars@);
    s
}

/// A `String` holding the characters `chars[from..to]`.
pub fn from_char_range(chars: &[char], from: usize, to: usize) -> (s: String)
    requires
        from <= to <= chars.len(),
    ensures
        s@ == chars@.subrange(from as int, to as int),
{
    let mut s = String::new();
    let mut i: usize = from;
    while i < to
        invariant
            from <= i <= to <= chars.len(),
            s@ == chars@.subrange(from as int, i as int),
        decreases to - i,
    {
        push_char(&mut s, chars[i]);
        assert(chars@.subrange(from as int, i + 1) == chars@.subrange(from as int, i as int).push(
            chars@[i as int],
        ));
        i = i + 1;
    }
    s
}

/// A copy of `s`.
pub fn copy_str(s: &str) -> (r: String)
    ensures
        r@ == s@,
{
    let mut r = String::new();
    push_str(&mut r, s);
    r
}

/// Two strings hold the same characters.
pub fn str_eq(a: &str, b: &str) -> (r: bool)
    ensures
        r == (a@ == b@),
{
    let ab = a.as_bytes();
    let bb = b.as_bytes();
    proof {
        vstd::utf8::encode_utf8_decode_utf8(a@);
        vstd::utf8::encode_utf8_decode_utf8(b@);
    }
    if ab.len() != bb.len() {
        return false;
    }
    let mut i: usize = 0;
    while i < ab.len()
        invariant
            ab@ == encode_utf8(a@),
            bb@ == encode_utf8(b@),
            ab.len() == bb.len(),
            i <= ab.len(),
            forall|k: int| 0 <= k < i ==> ab@[k] == bb@[k],
        decreases ab.len() - i,
    {
        if ab[i] != bb[i] {
            return false;
        }
        i = i + 1;
    }
    assert(ab@ =~= bb@);
    true
}

// ---------------------------------------------------------------------------
// White space and trimming (the `White_Space` property that std's
// `char::is_whitespace` and `str::trim` use)
// ---------------------------------------------------------------------------

/// The characters with the Unicode `White_Space` property.
pub open spec fn is_white_space(c: char) -> bool {
    let u = c as u32;
    ||| 0x9 <= u <= 0xd
    ||| u == 0x20
    ||| u == 0x85
    ||| u == 0xa0
    ||| u == 0x1680
    ||| 0x2000 <= u <= 0x200a
    ||| u == 0x2028
    ||| u == 0x2029
    ||| u == 0x202f
    ||| u == 0x205f
    ||| u == 0x3000
}

/// Whether `c` has the Unicode `White_Space` property.
pub fn is_white_space_char(c: char) -> (b: bool)
    ensures
        b == is_white_space(c),
{
    let u = c as u32;
    (0x9 <= u && u <= 0xd) || u == 0x20 || u == 0x85 || u == 0xa0 || u == 0x1680 || (0x2000 <= u
        && u <= 0x200a) || u == 0x2028 || u == 0x2029 || u == 0x202f || u == 0x205f || u == 0x3000
}

/// `s` without its leading white space.
pub open spec fn trim_start(s: Seq<char>) -> Seq<char>
    decreases s.len(),
{
    if s.len() > 0 && is_white_space(s[0]) {
        trim_start(s.drop_first())
    } else {
        s
    }
}

/// `s` without its trailing white space.
pub open spec fn trim_end(s: Seq<char>) -> Seq<char>
    decreases s.len(),
{
    if s.len() > 0 && is_white_space(s.last()) {
        trim_end(s.drop_last())
    } else {
        s
    }
}

/// `s` without leading and trailing white space (std's `str::trim`).
pub open spec fn trim(s: Seq<char>) -> Seq<char> {
    trim_end(trim_start(s))
}

/// Every character of `s` is white space (so `trim(s)` is empty).
pub open spec fn is_blank(s: Seq<char>) -> bool {
    forall|i: int| 0 <= i < s.len() ==> is_white_space(#[trigger] s[i])
}

/// The bounds `(from, to)` of `trim(chars)` inside `chars`.
pub fn trim_bounds(chars: &[char]) -> (r: (usize, usize))
    ensures
        r.0 <= r.1 <= chars.len(),
        chars@.subrange(r.0 as int, r.1 as int) == trim(chars@),
        forall|k: int| 0 <= k < r.0 ==> is_white_space(#[trigger] chars@[k]),
{
    let n = chars.len();
    let mut i: usize = 0;
    assert(chars@.skip(0) == chars@);
    while i < n && is_white_space_char(chars[i])
        invariant
            i <= n == chars.len(),
            trim_start(chars@) == trim_start(chars@.skip(i as int)),
            forall|k: int| 0 <= k < i ==> is_white_space(#[trigger] chars@[k]),
        decreases n - i,
    {
        assert(chars@.skip(i as int).drop_first() == chars@.skip(i + 1));
        i = i + 1;
    }
    assert(trim_start(chars@.skip(i as int)) == chars@.skip(i as int));
    assert(chars@.skip(i as int) == chars@.subrange(i as int, n as int));
    let mut j: usize = n;
    while j > i && is_white_space_char(chars[j - 1])
        invariant
            i <= j <= n == chars.len(),
            trim(chars@) == trim_end(chars@.subrange(i as int, j as int)),
        decreases j,
    {
        assert(chars@.subrange(i as int, j as int).drop_last() == chars@.subrange(
            i as int,
            j - 1,
        ));
        j = j - 1;
    }
    (i, j)
}

/// `s` with leading and trailing white space removed (std's `str::trim`).
pub fn trimmed(s: &str) -> (r: String)
    ensures
        r@ == trim(s@),
{
    let v = to_chars(s);
    let (a, b) = trim_bounds(v.as_slice());
    from_char_range(v.as_slice(), a, b)
}

/// Trimming an already-trimmed text changes nothing.
pub proof fn lemma_trim_idempotent(s: Seq<char>)
    ensures
        trim(trim(s)) == trim(s),
    decreases s.len(),
{
    lemma_trim_start_shape(s);
    lemma_trim_end_shape(trim_start(s));
    let t = trim(s);
    if t.len() > 0 {
        lemma_trim_start_shape(t);
        lemma_trim_end_shape(t);
        assert(trim_start(t) == t);
        assert(trim_end(t) == t);
    } else {
        assert(trim_start(t) == t);
    }
}

/// `trim_start(s)` is a suffix of `s` that starts with a non-white-space
/// character (or is empty), preceded only by white space.
pub proof fn lemma_trim_start_shape(s: Seq<char>)
    ensures
        trim_start(s).len() <= s.len(),
        trim_start(s) == s.skip(s.len() - trim_start(s).len()),
        trim_start(s).len() > 0 ==> !is_white_space(trim_start(s)[0]),
        forall|k: int| 0 <= k < s.len() - trim_start(s).len() ==> is_white_space(#[trigger] s[k]),
    decreases s.len(),
{
    if s.len() > 0 && is_white_space(s[0]) {
        lemma_trim_start_shape(s.drop_first());
        assert forall|k: int| 0 <= k < s.len() - trim_start(s).len() implies is_white_space(
            #[trigger] s[k],
        ) by {
            if k > 0 {
                assert(s[k] == s.drop_first()[k - 1]);
            }
        }
        assert(s.drop_first().skip(s.drop_first().len() - trim_start(s).len()) == s.skip(
            s.len() - trim_start(s).len(),
        ));
    } else {
        assert(s.skip(0) == s);
    }
}

/// `trim_end(s)` is a prefix of `s` that ends with a non-white-space
/// character (or is empty), followed only by white space.
pub proof fn lemma_trim_end_shape(s: Seq<char>)
    ensures
        trim_end(s).len() <= s.len(),
        trim_end(s) == s.take(trim_end(s).len() as int),
        trim_end(s).len() > 0 ==> !is_white_space(trim_end(s).last()),
        forall|k: int| trim_end(s).len() <= k < s.len() ==> is_white_space(#[trigger] s[k]),
    decreases s.len(),
{
    if s.len() > 0 && is_white_space(s.last()) {
        lemma_trim_end_shape(s.drop_last());
        assert forall|k: int| trim_end(s).len() <= k < s.len() implies is_white_space(
            #[trigger] s[k],
        ) by {
            if k < s.len() - 1 {
                assert(s[k] == s.drop_last()[k]);
            }
        }
        assert(s.drop_last().take(trim_end(s).len() as int) == s.take(trim_end(s).len() as int));
    } else {
        assert(s.take(s.len() as int) == s);
    }
}

/// A text trims to nothing exactly when all of it is white space.
pub proof fn lemma_trim_empty_iff_blank(s: Seq<char>)
    ensures
        (trim(s).len() == 0) == is_blank(s),
{
    lemma_trim_start_shape(s);
    lemma_trim_end_shape(trim_start(s));
    let ts = trim_start(s);
    if trim(s).len() == 0 {
        assert forall|i: int| 0 <= i < s.len() implies is_white_space(#[trigger] s[i]) by {
            if i >= s.len() - ts.len() {
                assert(s[i] == ts[i - (s.len() - ts.len())]);
            }
        }
    } else {
        if is_blank(s) {
            assert(ts.len() > 0);
            assert(ts[0] == s[s.len() - ts.len()]);
        }
    }
}

/// Whether `s` is empty after trimming white space.
pub fn is_blank_str(s: &str) -> (b: bool)
    ensures
        b == (trim(s@).len() == 0),
        b == is_blank(s@),
{
    proof {
        lemma_trim_empty_iff_blank(s@);
    }
    let v = to_chars(s);
    let (a, b) = trim_bounds(v.as_slice());
    a == b
}


// ---------------------------------------------------------------------------
// Prefixes and searching
// ---------------------------------------------------------------------------

/// `s` begins with `p`.
pub open spec fn starts_with(s: Seq<char>, p: Seq<char>) -> bool {
    p.len() <= s.len() && s.take(p.len() as int) == p
}

/// Whether `s` begins with `p`.
pub fn starts_with_chars(s: &[char], p: &[char]) -> (b: bool)
    ensures
        b == starts_with(s@, p@),
{
    if p.len() > s.len() {
        return false;
    }
    let mut i: usize = 0;
    while i < p.len()
        invariant
            p.len() <= s.len(),
            i <= p.len(),
            forall|k: int| 0 <= k < i ==> s@[k] == p@[k],
        decreases p.len() - i,
    {
        if s[i] != p[i] {
            assert(s@.take(p.len() as int)[i as int] != p@[i as int]);
            return false;
        }
        i = i + 1;
    }
    assert(s@.take(p.len() as int) == p@);
    true
}

/// Whether `s` begins with `p`.
pub fn str_starts_with(s: &str, p: &str) -> (b: bool)
    ensures
        b == starts_with(s@, p@),
{
    let sv = to_chars(s);
    let pv = to_chars(p);
    starts_with_chars(sv.as_slice(), pv.as_slice())
}

/// The first index at or after `from` where `c` occurs in `s`, or `-1`.
pub open spec fn index_of_from(s: Seq<char>, c: char, from: int) -> int
    decreases s.len() - from,
{
    if from < 0 || from >= s.len() {
        -1
    } else if s[from] == c {
        from
    } else {
        index_of_from(s, c, from + 1)
    }
}

/// What `index_of_from` returns.
pub proof fn lemma_index_of_from(s: Seq<char>, c: char, from: int)
    requires
        0 <= from,
    ensures
        index_of_from(s, c, from) == -1 ==> forall|k: int|
            from <= k < s.len() ==> s[k] != c,
        index_of_from(s, c, from) != -1 ==> {
            let r = index_of_from(s, c, from);
            &&& from <= r < s.len()
            &&& s[r] == c
            &&& forall|k: int| from <= k < r ==> s[k] != c
        },
    decreases s.len() - from,
{
    if from < s.len() && s[from] != c {
        lemma_index_of_from(s, c, from + 1);
    }
}

/// The first index at or after `from` where `c` occurs in `v`.
pub fn find_char_from(v: &[char], c: char, from: usize) -> (r: Option<usize>)
    ensures
        r matches Some(k) ==> k == index_of_from(v@, c, from as int),
        r is None ==> index_of_from(v@, c, from as int) == -1,
        r matches Some(k) ==> from <= k < v.len() && v@[k as int] == c,
        r matches Some(k) ==> forall|j: int| from <= j < k ==> v@[j] != c,
        r is None ==> forall|k: int| from <= k < v.len() ==> v@[k] != c,
{
    let mut i = from;
    while i < v.len()
        invariant
            from <= i,
            index_of_from(v@, c, from as int) == index_of_from(v@, c, i as int),
            forall|k: int| from <= k < i && k < v.len() ==> v@[k] != c,
        decreases v.len() - i,
    {
        if v[i] == c {
            return Some(i);
        }
        i = i + 1;
    }
    None
}

// ---------------------------------------------------------------------------
// Decimal numbers
// ---------------------------------------------------------------------------

/// The decimal digit character for `d < 10`.
pub open spec fn digit_char(d: nat) -> char {
    if d == 0 {
        '0'
    } else if d == 1 {
        '1'
    } else if d == 2 {
        '2'
    } else if d == 3 {
        '3'
    } else if d == 4 {
        '4'
    } else if d == 5 {
        '5'
    } else if d == 6 {
        '6'
    } else if d == 7 {
        '7'
    } else if d == 8 {
        '8'
    } else {
        '9'
    }
}

/// The decimal representation of `n`, without sign or leading zeros.
pub open spec fn decimal(n: nat) -> Seq<char>
    decreases n,
{
    if n < 10 {
        seq![digit_char(n)]
    } else {
        decimal(n / 10).push(digit_char(n % 10))
    }
}

/// The character of digit `d`.
pub(crate) fn digit(d: u128) -> (c: char)
    requires
        d < 10,
    ensures
        c == digit_char(d as nat),
{
    if d == 0 {
        '0'
    } else if d == 1 {
        '1'
    } else if d == 2 {
        '2'
    } else if d == 3 {
        '3'
    } else if d == 4 {
        '4'
    } else if d == 5 {
        '5'
    } else if d == 6 {
        '6'
    } else if d == 7 {
        '7'
    } else if d == 8 {
        '8'
    } else {
        '9'
    }
}

/// Appends the decimal representation of `n` to `s`.
pub fn push_decimal(s: &mut String, n: u128)
    ensures
        final(s)@ == old(s)@ + decimal(n as nat),
    decreases n,
{
    if n >= 10 {
        push_decimal(s, n / 10);
    }
    push_char(s, digit(n % 10));
}

/// The decimal representation of `n` (what `n.to_string()` gives).
pub fn decimal_string(n: u128) -> (s: String)
    ensures
        s@ == decimal(n as nat),
{
    let mut s = String::new();
    push_decimal(&mut s, n);
    s
}

/// `s` padded on the left with spaces to at least `width` characters
/// (what `format!("{:>width$}", ..)` does).
pub open spec fn pad_left(s: Seq<char>, width: nat) -> Seq<char> {
    if s.len() >= width {
        s
    } else {
        Seq::new((width - s.len()) as nat, |i: int| ' ') + s
    }
}

/// Appends `pad_left(text, width)` to `s`.
pub fn push_padded_left(s: &mut String, text: &str, width: usize)
    ensures
        final(s)@ == old(s)@ + pad_left(text@, width as nat),
{
    let v = to_chars(text);
    let ghost start = s@;
    if v.len() < width {
        let mut i: usize = v.len();
        while i < width
            invariant
                v.len() <= i <= width,
                s@ == start + Seq::new((i - v.len()) as nat, |k: int| ' '),
            decreases width - i,
        {
            push_char(s, ' ');
            assert(Seq::new((i + 1 - v.len()) as nat, |k: int| ' ') == Seq::new(
                (i - v.len()) as nat,
                |k: int| ' ',
            ).push(' '));
            i = i + 1;
        }
    }
    push_str(s, text);
    assert(s@ == start + pad_left(text@, width as nat));
}


// ---------------------------------------------------------------------------
// Bytes and case
// ---------------------------------------------------------------------------

/// What `String::from_utf8_lossy` makes of `bytes`: the text they encode,
/// with each maximal invalid sequence replaced by U+FFFD.
pub uninterp spec fn utf8_lossy(bytes: Seq<u8>) -> Seq<char>;

/// Decodes `bytes` as UTF-8, replacing invalid sequences (std's
/// `String::from_utf8_lossy`); the result is `utf8_lossy(bytes)`.
#[verifier::external_body]
pub(crate) fn utf8_lossy_string(bytes: &[u8]) -> (s: String)
    ensures
        s@ == utf8_lossy(bytes@),
{
    String::from_utf8_lossy(bytes).into_owned()
}

/// What `str::to_lowercase` makes of a text (Unicode lowercase mapping).
pub uninterp spec fn lowercase(s: Seq<char>) -> Seq<char>;

/// The text in lowercase (std's `str::to_lowercase`); the result is
/// `lowercase(s@)`.
#[verifier::external_body]
pub(crate) fn to_lowercase(s: &str) -> (r: String)
    ensures
        r@ == lowercase(s@),
{
    s.to_lowercase()
}

/// Whether `c` occurs in `s`.
pub fn str_contains_char(s: &str, c: char) -> (b: bool)
    ensures
        b == s@.contains(c),
{
    let v = to_chars(s);
    match find_char_from(v.as_slice(), c, 0) {
        Some(k) => {
            assert(s@[k as int] == c);
            true
        },
        None => false,
    }
}


// ---------------------------------------------------------------------------
// Joining
// ---------------------------------------------------------------------------

/// `parts` joined with `sep` between consecutive parts (std's `join`).
pub open spec fn join(parts: Seq<Seq<char>>, sep: Seq<char>) -> Seq<char>
    decreases parts.len(),
{
    if parts.len() == 0 {
        Seq::empty()
    } else if parts.len() == 1 {
        parts[0]
    } else {
        join(parts.drop_last(), sep) + sep + parts.last()
    }
}

/// The texts of a list of strings.
pub open spec fn texts(v: Seq<String>) -> Seq<Seq<char>> {
    v.map_values(|s: String| s@)
}

/// `parts` joined with `sep`.
pub fn join_strings(parts: &Vec<String>, sep: &str) -> (r: String)
    ensures
        r@ == join(texts(parts@), sep@),
{
    let mut r = String::new();
    let mut i: usize = 0;
    while i < parts.len()
        invariant
            i <= parts.len(),
            r@ == join(texts(parts@).take(i as int), sep@),
        decreases parts.len() - i,
    {
        if i > 0 {
            push_str(&mut r, sep);
        }
        push_str(&mut r, parts[i].as_str());
        assert(texts(parts@).take(i + 1).drop_last() == texts(parts@).take(i as int));
        i = i + 1;
    }
    assert(texts(parts@).take(parts.len() as int) == texts(parts@));
    r
}


// ---------------------------------------------------------------------------
// Lines
// ---------------------------------------------------------------------------

/// An index `r` is the first occurrence of `c` at or after `from`.
pub proof fn lemma_index_of_from_is(s: Seq<char>, c: char, from: int, r: int)
    requires
        0 <= from <= r < s.len(),
        s[r] == c,
        forall|k: int| from <= k < r ==> s[k] != c,
    ensures
        index_of_from(s, c, from) == r,
    decreases r - from,
{
    if from < r {
        lemma_index_of_from_is(s, c, from + 1, r);
    }
}

/// No occurrence of `c` at or after `from`.
pub proof fn lemma_index_of_from_none(s: Seq<char>, c: char, from: int)
    requires
        0 <= from,
        forall|k: int| from <= k < s.len() ==> s[k] != c,
    ensures
        index_of_from(s, c, from) == -1,
    decreases s.len() - from,
{
    if from < s.len() {
        lemma_index_of_from_none(s, c, from + 1);
    }
}

/// `t` without one trailing carriage return.
pub open spec fn strip_cr(t: Seq<char>) -> Seq<char> {
    if t.len() > 0 && t.last() == '\r' {
        t.drop_last()
    } else {
        t
    }
}

/// The lines of `s` (std's `str::lines`): split at each `\n`, a `\r`
/// before the `\n` removed, no line after a final `\n`.
pub open spec fn lines(s: Seq<char>) -> Seq<Seq<char>>
    decreases s.len(),
{
    if s.len() == 0 {
        Seq::empty()
    } else {
        let i = index_of_from(s, '\n', 0);
        if 0 <= i < s.len() {
            seq![strip_cr(s.take(i))] + lines(s.skip(i + 1))
        } else {
            seq![s]
        }
    }
}

/// The lines of `s` (see `lines`).
pub fn split_lines(s: &str) -> (r: Vec<String>)
    ensures
        texts(r@) == lines(s@),
{
    let v = to_chars(s);
    let n = v.len();
    let mut out: Vec<String> = Vec::new();
    let mut start: usize = 0;
    assert(v@.skip(0) == v@);
    while start < n
        invariant
            start <= n == v.len(),
            v@ == s@,
            lines(s@) == texts(out@) + lines(v@.skip(start as int)),
        decreases n - start,
    {
        let ghost t = v@.skip(start as int);
        match find_char_from(v.as_slice(), '\n', start) {
            Some(pos) => {
                proof {
                    assert forall|k: int| 0 <= k < pos - start implies t[k] != '\n' by {
                        assert(t[k] == v@[k + start]);
                    }
                    lemma_index_of_from_is(t, '\n', 0, pos - start);
                    assert(t.take(pos - start) == v@.subrange(start as int, pos as int));
                    assert(t.skip(pos - start + 1) == v@.skip(pos + 1));
                }
                let end = if pos > start && v[pos - 1] == '\r' {
                    pos - 1
                } else {
                    pos
                };
                let line = from_char_range(v.as_slice(), start, end);
                proof {
                    let full = v@.subrange(start as int, pos as int);
                    if pos > start && v@[pos - 1] == '\r' {
                        assert(full.drop_last() == v@.subrange(start as int, end as int));
                    }
                    assert(line@ == strip_cr(full));
                }
                let ghost before = texts(out@);
                out.push(line);
                assert(texts(out@) == before.push(line@));
                assert(before.push(line@) + lines(v@.skip(pos + 1)) == before + (seq![line@] + lines(
                    v@.skip(pos + 1),
                )));
                start = pos + 1;
            },
            None => {
                proof {
                    assert forall|k: int| 0 <= k < t.len() implies t[k] != '\n' by {
                        assert(t[k] == v@[k + start]);
                    }
                    lemma_index_of_from_none(t, '\n', 0);
                    assert(t == v@.subrange(start as int, n as int));
                }
                let line = from_char_range(v.as_slice(), start, n);
                let ghost before = texts(out@);
                out.push(line);
                assert(texts(out@) == before.push(line@));
                assert(v@.skip(n as int).len() == 0);
                assert(lines(v@.skip(n as int)) == Seq::<Seq<char>>::empty());
                assert(before + lines(t) == texts(out@) + lines(v@.skip(n as int)));
                start = n;
            },
        }
    }
    assert(v@.skip(n as int).len() == 0);
    assert(texts(out@) + lines(v@.skip(n as int)) == texts(out@));
    out
}


// ---------------------------------------------------------------------------
// Replacing
// ---------------------------------------------------------------------------

/// `s` with every occurrence of `pat` replaced by `rep`, scanning left to
/// right without overlaps (std's `str::replace` for a non-empty pattern).
pub open spec fn replace_all(s: Seq<char>, pat: Seq<char>, rep: Seq<char>) -> Seq<char>
    decreases s.len(),
{
    if s.len() == 0 || pat.len() == 0 {
        s
    } else if starts_with(s, pat) {
        rep + replace_all(s.skip(pat.len() as int), pat, rep)
    } else {
        seq![s[0]] + replace_all(s.drop_first(), pat, rep)
    }
}

/// `s` with every occurrence of `pat` replaced by `rep` (see `replace_all`).
pub fn replace_str(s: &str, pat: &str, rep: &str) -> (r: String)
    requires
        pat@.len() > 0,
    ensures
        r@ == replace_all(s@, pat@, rep@),
{
    let v = to_chars(s);
    let p = to_chars(pat);
    let n = v.len();
    let mut r = String::new();
    let mut i: usize = 0;
    assert(v@.skip(0) == v@);
    while i < n
        invariant
            i <= n == v.len(),
            v@ == s@,
            p@ == pat@,
            p@.len() > 0,
            replace_all(s@, pat@, rep@) == r@ + replace_all(v@.skip(i as int), pat@, rep@),
        decreases n - i,
    {
        let ghost t = v@.skip(i as int);
        let mut matched = p.len() <= n - i;
        let mut k: usize = 0;
        while matched && k < p.len()
            invariant
                k <= p.len(),
                matched ==> p.len() <= n - i,
                matched ==> forall|j: int| 0 <= j < k ==> v@[i + j] == p@[j],
                !matched ==> !starts_with(t, p@),
                t == v@.skip(i as int),
                i <= n == v.len(),
            decreases p.len() - k + (if matched { 1int } else { 0int }),
        {
            if v[i + k] != p[k] {
                assert(t.take(p.len() as int)[k as int] == v@[i + k]);
                matched = false;
            } else {
                k = k + 1;
            }
        }
        if matched {
            assert(t.take(p.len() as int) == p@);
            push_str(&mut r, rep);
            assert(t.skip(p.len() as int) == v@.skip(i + p.len()));
            i = i + p.len();
        } else {
            push_char(&mut r, v[i]);
            assert(t.drop_first() == v@.skip(i + 1));
            i = i + 1;
        }
    }
    assert(v@.skip(n as int).len() == 0);
    r
}


// ---------------------------------------------------------------------------
// UTF-8 byte lengths
// ---------------------------------------------------------------------------

/// The number of UTF-8 bytes of `c`.
pub open spec fn utf8_width(c: char) -> nat {
    vstd::utf8::encode_scalar(c as u32).len()
}

/// The number of UTF-8 bytes of `c`.
pub fn utf8_width_exec(c: char) -> (w: usize)
    ensures
        w == utf8_width(c),
        1 <= w <= 4,
{
    let u = c as u32;
    if u <= 0x7f {
        1
    } else if u <= 0x7ff {
        2
    } else if u <= 0xffff && !(0xd800 <= u && u <= 0xdfff) {
        3
    } else {
        4
    }
}

/// The number of characters of `s` whose UTF-8 encoding fits in `max`
/// bytes, counted from the start.
pub open spec fn fitting_chars(s: Seq<char>, max: nat) -> nat
    decreases s.len(),
{
    if s.len() == 0 || utf8_width(s[0]) > max {
        0
    } else {
        1 + fitting_chars(s.drop_first(), (max - utf8_width(s[0])) as nat)
    }
}

/// `s` cut to its longest prefix of at most `max` UTF-8 bytes (what
/// `String::truncate` at the nearest char boundary at or below `max` does).
pub open spec fn cut_to_bytes(s: Seq<char>, max: nat) -> Seq<char> {
    s.take(fitting_chars(s, max) as int)
}

/// The UTF-8 encoding of two texts together is as long as theirs apart.
pub proof fn lemma_encode_utf8_concat_len(a: Seq<char>, b: Seq<char>)
    ensures
        encode_utf8(a + b).len() == encode_utf8(a).len() + encode_utf8(b).len(),
    decreases a.len(),
{
    if a.len() == 0 {
        assert(a + b =~= b);
    } else {
        assert((a + b).drop_first() =~= a.drop_first() + b);
        assert((a + b)[0] == a[0]);
        lemma_encode_utf8_concat_len(a.drop_first(), b);
    }
}

/// Cutting to `max` bytes keeps the longest prefix whose UTF-8 encoding
/// fits: the kept prefix takes at most `max` bytes, and one more character
/// would not fit.
pub proof fn lemma_cut_to_bytes(s: Seq<char>, max: nat)
    ensures
        fitting_chars(s, max) <= s.len(),
        encode_utf8(cut_to_bytes(s, max)).len() <= max,
        fitting_chars(s, max) < s.len() ==> encode_utf8(
            s.take(fitting_chars(s, max) + 1int),
        ).len() > max,
    decreases s.len(),
{
    let f = fitting_chars(s, max);
    if s.len() == 0 || utf8_width(s[0]) > max {
        assert(s.take(0) =~= Seq::<char>::empty());
        if s.len() > 0 {
            assert(s.take(1).drop_first() =~= Seq::<char>::empty());
            assert(s.take(1)[0] == s[0]);
        }
    } else {
        let w = utf8_width(s[0]);
        let rest = s.drop_first();
        let m = (max - w) as nat;
        lemma_cut_to_bytes(rest, m);
        let g = fitting_chars(rest, m);
        assert(f == g + 1);
        assert(s.take(f as int).drop_first() =~= rest.take(g as int));
        assert(s.take(f as int)[0] == s[0]);
        if f < s.len() {
            assert(s.take(f + 1int).drop_first() =~= rest.take(g + 1int));
            assert(s.take(f + 1int)[0] == s[0]);
        }
    }
}

/// `s` cut to at most `max` UTF-8 bytes at a character boundary.
pub fn cut_to_bytes_exec(s: &str, max: usize) -> (r: String)
    ensures
        r@ == cut_to_bytes(s@, max as nat),
{
    let v = to_chars(s);
    let mut i: usize = 0;
    let mut room: usize = max;
    assert(v@.skip(0) == v@);
    while i < v.len() && utf8_width_exec(v[i]) <= room
        invariant
            i <= v.len(),
            v@ == s@,
            fitting_chars(s@, max as nat) == i + fitting_chars(v@.skip(i as int), room as nat),
        decreases v.len() - i,
    {
        let w = utf8_width_exec(v[i]);
        assert(v@.skip(i as int).drop_first() == v@.skip(i + 1));
        room = room - w;
        i = i + 1;
    }
    from_char_range(v.as_slice(), 0, i)
}

/// `s` without any trailing `c` (std's `str::trim_end_matches` with a char).
pub open spec fn trim_end_char(s: Seq<char>, c: char) -> Seq<char>
    decreases s.len(),
{
    if s.len() > 0 && s.last() == c {
        trim_end_char(s.drop_last(), c)
    } else {
        s
    }
}

/// `s` without any trailing `c`.
pub fn trim_end_matches_char(s: &str, c: char) -> (r: String)
    ensures
        r@ == trim_end_char(s@, c),
{
    let v = to_chars(s);
    let mut j: usize = v.len();
    assert(v@.subrange(0, j as int) == v@);
    while j > 0 && v[j - 1] == c
        invariant
            j <= v.len(),
            trim_end_char(s@, c) == trim_end_char(v@.subrange(0, j as int), c),
            v@ == s@,
        decreases j,
    {
        assert(v@.subrange(0, j as int).drop_last() == v@.subrange(0, j - 1));
        j = j - 1;
    }
    from_char_range(v.as_slice(), 0, j)
}

} // verus!
