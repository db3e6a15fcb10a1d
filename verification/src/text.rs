//! Text as sequences of characters: white space, splitting, trimming,
//! ASCII case, decimal numbers and substring search.
use vstd::arithmetic::power::pow;
use vstd::prelude::*;
use vstd::slice::slice_subrange;
use vstd::string::*;
use vstd::utf8::*;

verus! {

/// `String::push` appends one character at the end of the string.
pub assume_specification[ String::push ](s: &mut String, c: char)
    ensures
        final(s)@ == old(s)@.push(c),
;

/// What `str::to_lowercase` makes of a text.
pub uninterp spec fn lowercase(s: Seq<char>) -> Seq<char>;

/// Calls `str::to_lowercase`. Its result is named `lowercase`; of that result only
/// the ASCII part is stated: an ASCII text has its letters `A` to `Z` replaced by
/// `a` to `z` and nothing else changed.
#[verifier::external_body]
pub(crate) fn to_lowercase(s: &str) -> (r: String)
    ensures
        r@ == lowercase(s@),
        is_ascii_chars(s@) ==> r@ == ascii_lowercase(s@),
{
    s.to_lowercase()
}

/// What `String::from_utf8_lossy` makes of a byte string.
pub uninterp spec fn lossy_text(bytes: Seq<u8>) -> Seq<char>;

/// Calls `String::from_utf8_lossy`. Its result is named `lossy_text`; on valid UTF-8
/// it is the text that the bytes encode.
#[verifier::external_body]
pub(crate) fn from_utf8_lossy(bytes: &[u8]) -> (r: String)
    ensures
        r@ == lossy_text(bytes@),
        valid_utf8(bytes@) ==> r@ == decode_utf8(bytes@),
{
    String::from_utf8_lossy(bytes).into_owned()
}

/// The characters with Unicode's `White_Space` property.
pub open spec fn is_white_space(c: char) -> bool {
    ||| '\u{9}' <= c <= '\u{d}'
    ||| c == ' '
    ||| c == '\u{85}'
    ||| c == '\u{a0}'
    ||| c == '\u{1680}'
    ||| '\u{2000}' <= c <= '\u{200a}'
    ||| c == '\u{2028}'
    ||| c == '\u{2029}'
    ||| c == '\u{202f}'
    ||| c == '\u{205f}'
    ||| c == '\u{3000}'
}

/// Whether `c` is white space.
pub fn white_space(c: char) -> (r: bool)
    ensures
        r == is_white_space(c),
{
    ('\u{9}' <= c && c <= '\u{d}') || c == ' ' || c == '\u{85}' || c == '\u{a0}' || c == '\u{1680}'
        || ('\u{2000}' <= c && c <= '\u{200a}') || c == '\u{2028}' || c == '\u{2029}' || c
        == '\u{202f}' || c == '\u{205f}' || c == '\u{3000}'
}

pub open spec fn is_digit(c: char) -> bool {
    '0' <= c <= '9'
}

pub open spec fn is_alphanumeric(c: char) -> bool {
    is_digit(c) || 'A' <= c <= 'Z' || 'a' <= c <= 'z'
}

/// Whether `c` is an ASCII letter or digit.
pub fn alphanumeric(c: char) -> (r: bool)
    ensures
        r == is_alphanumeric(c),
{
    ('0' <= c && c <= '9') || ('A' <= c && c <= 'Z') || ('a' <= c && c <= 'z')
}

/// `c` with ASCII capitals turned into small letters.
pub open spec fn ascii_lower(c: char) -> char {
    if 'A' <= c <= 'Z' {
        (c as u32 + 32) as char
    } else {
        c
    }
}

/// A text with its ASCII capitals turned into small letters.
pub open spec fn ascii_lowercase(s: Seq<char>) -> Seq<char> {
    Seq::new(s.len(), |i: int| ascii_lower(s[i]))
}

/// Two texts that differ at most in the case of ASCII letters.
pub open spec fn same_ignoring_case(a: Seq<char>, b: Seq<char>) -> bool {
    ascii_lowercase(a) =~= ascii_lowercase(b)
}

/// The characters of `s`, in order.
pub fn chars_of(s: &str) -> (r: Vec<char>)
    ensures
        r@ == s@,
{
    let mut r: Vec<char> = Vec::new();
    for c in it: s.chars()
        invariant
            r@ == it.seq().take(it.index() as int),
            it.seq() == s@,
    {
        r.push(c);
    }
    r
}

/// The string made of `chars`.
pub fn string_of(chars: &[char]) -> (r: String)
    ensures
        r@ == chars@,
{
    let mut r = String::new();
    let mut i: usize = 0;
    while i < chars.len()
        invariant
            i <= chars.len(),
            r@ == chars@.take(i as int),
        decreases chars.len() - i,
    {
        r.push(chars[i]);
        i += 1;
    }
    r
}

/// Whether two texts are equal.
pub fn same_text(a: &str, b: &str) -> (r: bool)
    ensures
        r == (a@ == b@),
{
    let x = chars_of(a);
    let y = chars_of(b);
    if x.len() != y.len() {
        return false;
    }
    let mut i: usize = 0;
    while i < x.len()
        invariant
            i <= x.len() == y.len(),
            x@ == a@,
            y@ == b@,
            forall|j: int| 0 <= j < i ==> x@[j] == y@[j],
        decreases x.len() - i,
    {
        if x[i] != y[i] {
            return false;
        }
        i += 1;
    }
    assert(a@ =~= b@);
    true
}

fn lower(c: char) -> (r: char)
    ensures
        r == ascii_lower(c),
{
    if 'A' <= c && c <= 'Z' {
        (c as u8 + 32) as char
    } else {
        c
    }
}

/// Whether two texts are equal when the case of ASCII letters is ignored.
pub fn eq_ignoring_case(a: &str, b: &str) -> (r: bool)
    ensures
        r == same_ignoring_case(a@, b@),
{
    let x = chars_of(a);
    let y = chars_of(b);
    if x.len() != y.len() {
        assert(ascii_lowercase(a@).len() != ascii_lowercase(b@).len());
        return false;
    }
    let mut i: usize = 0;
    while i < x.len()
        invariant
            i <= x.len() == y.len(),
            x@ == a@,
            y@ == b@,
            forall|j: int| 0 <= j < i ==> ascii_lower(x@[j]) == ascii_lower(y@[j]),
        decreases x.len() - i,
    {
        if lower(x[i]) != lower(y[i]) {
            assert(ascii_lowercase(a@)[i as int] != ascii_lowercase(b@)[i as int]);
            return false;
        }
        i += 1;
    }
    true
}

/// A set of characters to split or trim at.
pub enum CharClass {
    Only(char),
    WhiteSpace,
}

impl CharClass {
    pub open spec fn has(self, c: char) -> bool {
        match self {
            CharClass::Only(s) => c == s,
            CharClass::WhiteSpace => is_white_space(c),
        }
    }

    fn contains(&self, c: char) -> (r: bool)
        ensures
            r == self.has(c),
    {
        match self {
            CharClass::Only(s) => c == *s,
            CharClass::WhiteSpace => white_space(c),
        }
    }
}

/// The pieces between separators: one more piece than there are separators in `s`.
pub open spec fn pieces(s: Seq<char>, class: CharClass) -> Seq<Seq<char>>
    decreases s.len(),
{
    if s.len() == 0 {
        seq![Seq::<char>::empty()]
    } else {
        let before = pieces(s.drop_last(), class);
        if class.has(s.last()) {
            before.push(Seq::<char>::empty())
        } else {
            before.drop_last().push(before.last().push(s.last()))
        }
    }
}

/// Pieces put together again, with `sep` between each two.
pub open spec fn joined(parts: Seq<Seq<char>>, sep: Seq<char>) -> Seq<char>
    decreases parts.len(),
{
    if parts.len() == 0 {
        Seq::empty()
    } else if parts.len() == 1 {
        parts[0]
    } else {
        joined(parts.drop_last(), sep) + sep + parts.last()
    }
}

/// No character of `s` is in `class`.
pub open spec fn free_of(s: Seq<char>, class: CharClass) -> bool {
    forall|i: int| 0 <= i < s.len() ==> !class.has(#[trigger] s[i])
}

/// The non-empty pieces of `s` between white space.
pub open spec fn words(s: Seq<char>) -> Seq<Seq<char>> {
    pieces(s, CharClass::WhiteSpace).filter(|w: Seq<char>| w.len() > 0)
}

/// The texts that a vector of character vectors holds.
pub open spec fn contents(v: Seq<Vec<char>>) -> Seq<Seq<char>> {
    Seq::new(v.len(), |i: int| v[i]@)
}

/// The texts that a vector of strings holds.
pub open spec fn texts(v: Seq<String>) -> Seq<Seq<char>> {
    Seq::new(v.len(), |i: int| v[i]@)
}

/// Splits a text at its separators.
pub fn split(s: &[char], class: &CharClass) -> (r: Vec<Vec<char>>)
    ensures
        contents(r@) == pieces(s@, *class),
        r@.len() >= 1,
{
    let mut done: Vec<Vec<char>> = Vec::new();
    let mut last: Vec<char> = Vec::new();
    let mut i: usize = 0;
    assert(pieces(s@.take(0), *class) =~= seq![Seq::<char>::empty()]);
    assert(contents(done@).push(last@) =~= seq![Seq::<char>::empty()]);
    while i < s.len()
        invariant
            i <= s.len(),
            contents(done@).push(last@) == pieces(s@.take(i as int), *class),
        decreases s.len() - i,
    {
        let ghost before = contents(done@).push(last@);
        assert(s@.take(i + 1).drop_last() =~= s@.take(i as int));
        assert(before.drop_last() =~= contents(done@));
        if class.contains(s[i]) {
            let ghost old_done = done@;
            let ghost old_last = last@;
            done.push(last);
            last = Vec::new();
            assert(contents(done@) =~= contents(old_done).push(old_last));
        } else {
            last.push(s[i]);
        }
        i += 1;
    }
    assert(s@.take(s@.len() as int) =~= s@);
    let ghost old_done = done@;
    let ghost old_last = last@;
    done.push(last);
    assert(contents(done@) =~= contents(old_done).push(old_last));
    done
}

/// Splits a text into its words.
pub fn split_words(s: &str) -> (r: Vec<Vec<char>>)
    ensures
        contents(r@) == words(s@),
{
    let all = split(chars_of(s).as_slice(), &CharClass::WhiteSpace);
    let mut r: Vec<Vec<char>> = Vec::new();
    let ghost nonempty = |w: Seq<char>| w.len() > 0;
    let ghost every = contents(all@);
    let mut i: usize = 0;
    proof {
        reveal(Seq::filter);
    }
    assert(contents(r@) =~= every.take(0).filter(nonempty));
    while i < all.len()
        invariant
            i <= all.len(),
            every == contents(all@),
            nonempty == (|w: Seq<char>| w.len() > 0),
            contents(r@) == every.take(i as int).filter(nonempty),
        decreases all.len() - i,
    {
        proof {
            reveal(Seq::filter);
            assert(every.take(i + 1).drop_last() =~= every.take(i as int));
        }
        if all[i].len() > 0 {
            let ghost old_r = r@;
            let word = all[i].clone();
            r.push(word);
            assert(word@ =~= every[i as int]);
            assert(contents(r@) =~= contents(old_r).push(every[i as int]));
        }
        i += 1;
    }
    assert(every.take(every.len() as int) =~= every);
    r
}

/// `s` without the characters of `class` that it starts with.
pub open spec fn trim_start(s: Seq<char>, class: CharClass) -> Seq<char>
    decreases s.len(),
{
    if s.len() > 0 && class.has(s.first()) {
        trim_start(s.drop_first(), class)
    } else {
        s
    }
}

/// `s` without the characters of `class` that it ends with.
pub open spec fn trim_end(s: Seq<char>, class: CharClass) -> Seq<char>
    decreases s.len(),
{
    if s.len() > 0 && class.has(s.last()) {
        trim_end(s.drop_last(), class)
    } else {
        s
    }
}

/// `s` without the white space around it.
pub open spec fn trimmed(s: Seq<char>) -> Seq<char> {
    trim_end(trim_start(s, CharClass::WhiteSpace), CharClass::WhiteSpace)
}

/// Drops the characters of `class` that `s` starts with.
pub fn strip_start<'a>(s: &'a [char], class: &CharClass) -> (r: &'a [char])
    ensures
        r@ == trim_start(s@, *class),
{
    let mut i: usize = 0;
    assert(s@.skip(0) =~= s@);
    while i < s.len() && class.contains(s[i])
        invariant
            i <= s.len(),
            trim_start(s@.skip(i as int), *class) == trim_start(s@, *class),
        decreases s.len() - i,
    {
        assert(s@.skip(i as int).drop_first() =~= s@.skip(i + 1));
        i += 1;
    }
    assert(s@.subrange(i as int, s@.len() as int) =~= s@.skip(i as int));
    slice_subrange(s, i, s.len())
}

/// Drops the white space around a text.
pub fn trim(s: &[char]) -> (r: &[char])
    ensures
        r@ == trimmed(s@),
{
    let t = strip_start(s, &CharClass::WhiteSpace);
    let mut n: usize = t.len();
    assert(t@.take(n as int) =~= t@);
    while n > 0 && white_space(t[n - 1])
        invariant
            n <= t.len(),
            trim_end(t@.take(n as int), CharClass::WhiteSpace) == trim_end(
                t@,
                CharClass::WhiteSpace,
            ),
        decreases n,
    {
        assert(t@.take(n as int).drop_last() =~= t@.take(n - 1));
        n -= 1;
    }
    assert(t@.subrange(0, n as int) =~= t@.take(n as int));
    slice_subrange(t, 0, n)
}

/// The digit for `d`, which is less than ten.
pub open spec fn digit(d: nat) -> char {
    (48 + d) as char
}

/// The decimal notation of `n`, without leading zeros.
pub open spec fn decimal(n: nat) -> Seq<char>
    decreases n,
{
    if n < 10 {
        seq![digit(n)]
    } else {
        decimal(n / 10).push(digit(n % 10))
    }
}

/// Writes `n` in decimal notation.
pub fn decimal_text(n: u64) -> (r: String)
    ensures
        r@ == decimal(n as nat),
    decreases n,
{
    if n < 10 {
        let mut r = String::new();
        r.push((48 + n as u8) as char);
        assert(r@ =~= decimal(n as nat));
        r
    } else {
        let mut r = decimal_text(n / 10);
        r.push((48 + (n % 10) as u8) as char);
        r
    }
}

/// `s` consists of decimal digits only.
pub open spec fn all_digits(s: Seq<char>) -> bool {
    forall|i: int| 0 <= i < s.len() ==> is_digit(#[trigger] s[i])
}

/// The number that the digits of `s` stand for.
pub open spec fn digits_value(s: Seq<char>) -> nat
    decreases s.len(),
{
    if s.len() == 0 {
        0
    } else {
        digits_value(s.drop_last()) * 10 + (s.last() as u32 - 48) as nat
    }
}

/// Reads a number of at most `max` from decimal digits.
pub fn read_digits(s: &[char], max: u32) -> (r: Option<u32>)
    requires
        max <= 0xffff,
    ensures
        r == (if s@.len() > 0 && all_digits(s@) && digits_value(s@) <= max {
            Some(digits_value(s@) as u32)
        } else {
            None
        }),
{
    if s.len() == 0 {
        return None;
    }
    let mut value: u32 = 0;
    let mut fits: bool = true;
    let mut i: usize = 0;
    while i < s.len()
        invariant
            i <= s.len(),
            max <= 0xffff,
            all_digits(s@.take(i as int)),
            fits ==> value == digits_value(s@.take(i as int)) && value <= max,
            !fits ==> digits_value(s@.take(i as int)) > max,
        decreases s.len() - i,
    {
        let c = s[i];
        let ghost next = s@.take(i + 1);
        assert(next.drop_last() =~= s@.take(i as int));
        assert(next.last() == c);
        if c < '0' || c > '9' {
            assert(!is_digit(s@[i as int]));
            return None;
        }
        assert forall|j: int| 0 <= j < next.len() implies is_digit(#[trigger] next[j]) by {
            if j < i {
                assert(s@.take(i as int)[j] == next[j]);
            }
        }
        if fits {
            value = value * 10 + (c as u32 - 48);
            fits = value <= max;
        }
        i += 1;
    }
    assert(s@.take(s@.len() as int) =~= s@);
    if fits {
        Some(value)
    } else {
        None
    }
}

/// `part` occurs in `s`.
pub open spec fn is_substring(s: Seq<char>, part: Seq<char>) -> bool {
    exists|i: int|
        0 <= i && i + part.len() <= s.len() && #[trigger] s.subrange(i, i + part.len()) == part
}

fn occurs_at(s: &[char], part: &[char], at: usize) -> (r: bool)
    requires
        at + part.len() <= s.len(),
    ensures
        r == (s@.subrange(at as int, at + part.len()) == part@),
{
    let mut j: usize = 0;
    while j < part.len()
        invariant
            j <= part.len(),
            at + part.len() <= s.len(),
            forall|k: int| 0 <= k < j ==> s@[at + k] == part@[k],
        decreases part.len() - j,
    {
        if s[at + j] != part[j] {
            assert(s@.subrange(at as int, at + part.len())[j as int] != part@[j as int]);
            return false;
        }
        j += 1;
    }
    assert(s@.subrange(at as int, at + part.len()) =~= part@);
    true
}

/// Whether `part` occurs in `s`.
pub fn contains(s: &str, part: &str) -> (r: bool)
    ensures
        r == is_substring(s@, part@),
{
    let x = chars_of(s);
    let y = chars_of(part);
    if y.len() > x.len() {
        return false;
    }
    let last = x.len() - y.len();
    let mut i: usize = 0;
    while i <= last
        invariant
            x@ == s@,
            y@ == part@,
            last == x.len() - y.len(),
            y.len() <= x.len(),
            i <= last + 1,
            forall|k: int|
                0 <= k < i ==> #[trigger] x@.subrange(k, k + y@.len()) != y@,
        decreases last + 1 - i,
    {
        if occurs_at(x.as_slice(), y.as_slice(), i) {
            return true;
        }
        if i == last {
            return false;
        }
        i += 1;
    }
    false
}

/// Splitting loses nothing: the pieces at a character, put together again with that
/// character between them, are the text, and no piece holds the character.
pub proof fn law_split_then_join(s: Seq<char>, sep: char)
    ensures
        pieces(s, CharClass::Only(sep)).len() >= 1,
        joined(pieces(s, CharClass::Only(sep)), seq![sep]) == s,
        forall|i: int|
            0 <= i < pieces(s, CharClass::Only(sep)).len() ==> free_of(
                #[trigger] pieces(s, CharClass::Only(sep))[i],
                CharClass::Only(sep),
            ),
    decreases s.len(),
{
    let class = CharClass::Only(sep);
    lemma_pieces_are_free(s, class);
    if s.len() > 0 {
        law_split_then_join(s.drop_last(), sep);
        let before = pieces(s.drop_last(), class);
        let all = pieces(s, class);
        assert(s =~= s.drop_last().push(s.last()));
        if s.last() == sep {
            assert(all.drop_last() =~= before);
            assert(joined(all, seq![sep]) =~= s);
        } else {
            assert(all.drop_last() =~= before.drop_last());
            if before.len() > 1 {
                assert(joined(before, seq![sep]) == joined(before.drop_last(), seq![sep]) + seq![
                    sep,
                ] + before.last());
            }
            assert(joined(all, seq![sep]) =~= s);
        }
    }
}

/// Every split has a piece, and no piece holds a separator.
pub proof fn lemma_pieces_are_free(s: Seq<char>, class: CharClass)
    ensures
        pieces(s, class).len() >= 1,
        forall|i: int| 0 <= i < pieces(s, class).len() ==> free_of(#[trigger] pieces(s, class)[i], class),
    decreases s.len(),
{
    if s.len() > 0 {
        lemma_pieces_are_free(s.drop_last(), class);
        let before = pieces(s.drop_last(), class);
        assert(free_of(before[before.len() - 1], class));
    }
}

/// A text without separators is its own only piece.
pub proof fn lemma_pieces_of_free_text(s: Seq<char>, class: CharClass)
    requires
        free_of(s, class),
    ensures
        pieces(s, class) == seq![s],
    decreases s.len(),
{
    if s.len() > 0 {
        let t = s.drop_last();
        assert forall|i: int| 0 <= i < t.len() implies !class.has(#[trigger] t[i]) by {
            assert(t[i] == s[i]);
        }
        lemma_pieces_of_free_text(t, class);
        assert(!class.has(s[s.len() - 1]));
        assert(pieces(s, class) =~= seq![s]) by {
            assert(t.push(s.last()) =~= s);
        }
    } else {
        assert(s =~= Seq::<char>::empty());
    }
}

/// A separator and a text without separators at the end add that text as a piece.
pub proof fn lemma_pieces_append(s: Seq<char>, sep: char, t: Seq<char>, class: CharClass)
    requires
        class.has(sep),
        free_of(t, class),
    ensures
        pieces(s.push(sep) + t, class) == pieces(s, class).push(t),
    decreases t.len(),
{
    let all = s.push(sep) + t;
    if t.len() == 0 {
        assert(all.drop_last() =~= s);
        assert(t =~= Seq::<char>::empty());
    } else {
        let u = t.drop_last();
        assert forall|i: int| 0 <= i < u.len() implies !class.has(#[trigger] u[i]) by {
            assert(u[i] == t[i]);
        }
        lemma_pieces_append(s, sep, u, class);
        assert(all.drop_last() =~= s.push(sep) + u);
        assert(!class.has(t[t.len() - 1]));
        assert(pieces(s, class).push(u).drop_last() =~= pieces(s, class));
        assert(u.push(t.last()) =~= t);
    }
}

/// Joining undoes into the same pieces, provided that no piece holds the separator.
pub proof fn law_join_then_split(parts: Seq<Seq<char>>, sep: char, class: CharClass)
    requires
        parts.len() > 0,
        class.has(sep),
        forall|i: int| 0 <= i < parts.len() ==> free_of(#[trigger] parts[i], class),
    ensures
        pieces(joined(parts, seq![sep]), class) == parts,
    decreases parts.len(),
{
    if parts.len() == 1 {
        lemma_pieces_of_free_text(parts[0], class);
        assert(parts =~= seq![parts[0]]);
    } else {
        let init = parts.drop_last();
        assert forall|i: int| 0 <= i < init.len() implies free_of(#[trigger] init[i], class) by {
            assert(init[i] == parts[i]);
        }
        law_join_then_split(init, sep, class);
        assert(free_of(parts[parts.len() - 1], class));
        lemma_pieces_append(joined(init, seq![sep]), sep, parts.last(), class);
        assert(joined(init, seq![sep]) + seq![sep] + parts.last() =~= joined(
            init,
            seq![sep],
        ).push(sep) + parts.last());
        assert(init.push(parts.last()) =~= parts);
    }
}

/// Decimal notation reads back as the number that was written.
pub proof fn law_decimal_reads_back(n: nat)
    ensures
        decimal(n).len() > 0,
        all_digits(decimal(n)),
        digits_value(decimal(n)) == n,
    decreases n,
{
    if n < 10 {
        assert(decimal(n).drop_last() =~= Seq::<char>::empty());
        assert(digits_value(Seq::<char>::empty()) == 0);
    } else {
        law_decimal_reads_back(n / 10);
        let d = decimal(n);
        assert(d.drop_last() =~= decimal(n / 10));
        assert forall|i: int| 0 <= i < d.len() implies is_digit(#[trigger] d[i]) by {
            if i < d.len() - 1 {
                assert(d[i] == decimal(n / 10)[i]);
            }
        }
    }
}

/// A text with each character replaced by a text.
pub open spec fn expanded(s: Seq<char>, f: spec_fn(char) -> Seq<char>) -> Seq<char>
    decreases s.len(),
{
    if s.len() == 0 {
        Seq::empty()
    } else {
        expanded(s.drop_last(), f) + f(s.last())
    }
}

/// Replacing can start at the first character as well.
pub proof fn lemma_expanded_first(s: Seq<char>, f: spec_fn(char) -> Seq<char>)
    requires
        s.len() > 0,
    ensures
        expanded(s, f) == f(s.first()) + expanded(s.drop_first(), f),
    decreases s.len(),
{
    if s.len() == 1 {
        assert(s.drop_last() =~= Seq::<char>::empty());
        assert(s.drop_first() =~= Seq::<char>::empty());
        assert(expanded(s, f) =~= f(s.first()) + expanded(s.drop_first(), f));
    } else {
        let t = s.drop_last();
        lemma_expanded_first(t, f);
        assert(t.drop_first() =~= s.drop_first().drop_last());
        assert(expanded(s, f) =~= f(s.first()) + expanded(s.drop_first(), f));
    }
}

/// Words with white space before, between and after them.
pub open spec fn spaced(list: Seq<Seq<char>>, gaps: Seq<Seq<char>>) -> Seq<char>
    decreases list.len(),
{
    if list.len() == 0 {
        gaps[0]
    } else {
        spaced(list.drop_last(), gaps.drop_last()) + list.last() + gaps.last()
    }
}

/// `s` consists of white space only.
pub open spec fn all_white_space(s: Seq<char>) -> bool {
    forall|i: int| 0 <= i < s.len() ==> is_white_space(#[trigger] s[i])
}

/// White space for `n` words: any before the first and after the last, and some between
/// each two.
pub open spec fn are_gaps(gaps: Seq<Seq<char>>, n: nat) -> bool {
    &&& gaps.len() == n + 1
    &&& forall|i: int| 0 <= i < gaps.len() ==> all_white_space(#[trigger] gaps[i])
    &&& forall|i: int| 0 < i < n ==> (#[trigger] gaps[i]).len() > 0
}

/// A text of one or more characters, none of them white space.
pub open spec fn is_word(s: Seq<char>) -> bool {
    s.len() > 0 && free_of(s, CharClass::WhiteSpace)
}

proof fn lemma_no_words()
    ensures
        words(Seq::<char>::empty()) == Seq::<Seq<char>>::empty(),
{
    let keep = |w: Seq<char>| w.len() > 0;
    let none = Seq::<Seq<char>>::empty();
    let one = seq![Seq::<char>::empty()];
    reveal(Seq::filter);
    assert(one.drop_last() =~= none);
    assert(none.filter(keep) =~= none);
    assert(one.filter(keep) =~= none);
}

proof fn lemma_words_then_space(s: Seq<char>, gap: Seq<char>)
    requires
        all_white_space(gap),
    ensures
        words(s + gap) == words(s),
    decreases gap.len(),
{
    if gap.len() == 0 {
        assert(s + gap =~= s);
    } else {
        let init = gap.drop_last();
        let class = CharClass::WhiteSpace;
        assert forall|i: int| 0 <= i < init.len() implies is_white_space(#[trigger] init[i]) by {
            assert(init[i] == gap[i]);
        }
        lemma_words_then_space(s, init);
        assert((s + gap).drop_last() =~= s + init);
        assert(is_white_space(gap[gap.len() - 1]));
        let before = pieces(s + init, class);
        assert(pieces(s + gap, class) == before.push(Seq::<char>::empty()));
        reveal(Seq::filter);
        assert(before.push(Seq::<char>::empty()).drop_last() =~= before);
    }
}

proof fn lemma_words_then_word(s: Seq<char>, w: Seq<char>)
    requires
        s.len() > 0 ==> is_white_space(s.last()),
        is_word(w),
    ensures
        words(s + w) == words(s).push(w),
{
    let class = CharClass::WhiteSpace;
    let empty = Seq::<char>::empty();
    reveal(Seq::filter);
    if s.len() == 0 {
        lemma_pieces_of_free_text(w, class);
        assert(s + w =~= w);
        let keep = |w: Seq<char>| w.len() > 0;
        let none = Seq::<Seq<char>>::empty();
        lemma_no_words();
        assert(s =~= empty);
        assert(seq![w].drop_last() =~= none);
        assert(none.filter(keep) =~= none);
        assert(words(s + w) =~= words(s).push(w));
    } else {
        let init = s.drop_last();
        let before = pieces(init, class);
        assert(s =~= init.push(s.last()));
        lemma_pieces_append(init, s.last(), w, class);
        assert(pieces(s, class) == before.push(empty));
        assert(before.push(empty).drop_last() =~= before);
        assert(before.push(w).drop_last() =~= before);
    }
}

proof fn lemma_spaced_end(list: Seq<Seq<char>>, gaps: Seq<Seq<char>>)
    requires
        are_gaps(gaps, list.len()),
        list.len() > 0 ==> gaps.last().len() > 0,
    ensures
        spaced(list, gaps).len() > 0 ==> is_white_space(spaced(list, gaps).last()),
{
    let s = spaced(list, gaps);
    let gap = gaps[gaps.len() - 1];
    assert(all_white_space(gap));
    if list.len() == 0 {
        assert(s == gap);
        if s.len() > 0 {
            assert(is_white_space(gap[gap.len() - 1]));
        }
    } else {
        assert(s.last() == gap[gap.len() - 1]);
    }
}

/// White space carries nothing: whatever runs of it stand around words, the words are
/// the same.
pub proof fn law_spacing_does_not_matter(list: Seq<Seq<char>>, gaps: Seq<Seq<char>>)
    requires
        forall|i: int| 0 <= i < list.len() ==> is_word(#[trigger] list[i]),
        are_gaps(gaps, list.len()),
    ensures
        words(spaced(list, gaps)) == list,
    decreases list.len(),
{
    if list.len() == 0 {
        let empty = Seq::<char>::empty();
        assert(all_white_space(gaps[0]));
        lemma_words_then_space(empty, gaps[0]);
        assert(empty + gaps[0] =~= gaps[0]);
        lemma_no_words();
        assert(list =~= Seq::<Seq<char>>::empty());
    } else {
        let init = list.drop_last();
        let before = gaps.drop_last();
        let n = list.len() - 1;
        assert forall|i: int| 0 <= i < init.len() implies is_word(#[trigger] init[i]) by {
            assert(init[i] == list[i]);
        }
        assert forall|i: int| 0 <= i < before.len() implies all_white_space(
            #[trigger] before[i],
        ) by {
            assert(before[i] == gaps[i]);
        }
        assert forall|i: int| 0 < i < n implies (#[trigger] before[i]).len() > 0 by {
            assert(before[i] == gaps[i]);
        }
        if n > 0 {
            assert(gaps[n].len() > 0);
            assert(before.last() == gaps[n]);
        }
        law_spacing_does_not_matter(init, before);
        lemma_spaced_end(init, before);
        let s = spaced(init, before);
        assert(is_word(list[n]));
        assert(all_white_space(gaps[n + 1]));
        lemma_words_then_word(s, list.last());
        lemma_words_then_space(s + list.last(), gaps.last());
        assert(init.push(list.last()) =~= list);
    }
}

/// The class of one character holds that character alone.
pub proof fn law_class_of_one_character(s: char, c: char)
    ensures
        CharClass::Only(s).has(c) <==> c == s,
        CharClass::WhiteSpace.has(c) <==> is_white_space(c),
{
}

/// The ASCII letters and digits, by their code points.
pub proof fn law_ascii_code_points(c: char)
    ensures
        is_digit(c) <==> 48 <= c as u32 <= 57,
        is_alphanumeric(c) <==> 48 <= c as u32 <= 57 || 65 <= c as u32 <= 90 || 97 <= c as u32
            <= 122,
        65 <= c as u32 <= 90 ==> ascii_lower(c) as u32 == c as u32 + 32,
        !(65 <= c as u32 <= 90) ==> ascii_lower(c) == c,
{
}

/// Two texts are the same up to case exactly when they are as long and differ, place by
/// place, at most in the case of an ASCII letter.
pub proof fn law_same_up_to_case(a: Seq<char>, b: Seq<char>)
    ensures
        same_ignoring_case(a, b) <==> a.len() == b.len() && forall|i: int|
            0 <= i < a.len() ==> ((#[trigger] a[i]) == b[i] || (65 <= a[i] as u32 <= 90
                && b[i] as u32 == a[i] as u32 + 32) || (65 <= b[i] as u32 <= 90 && a[i] as u32
                == b[i] as u32 + 32)),
{
    let x = ascii_lowercase(a);
    let y = ascii_lowercase(b);
    if same_ignoring_case(a, b) {
        assert(x.len() == y.len());
        assert forall|i: int| 0 <= i < a.len() implies ((#[trigger] a[i]) == b[i] || (65
            <= a[i] as u32 <= 90 && b[i] as u32 == a[i] as u32 + 32) || (65 <= b[i] as u32 <= 90
            && a[i] as u32 == b[i] as u32 + 32)) by {
            assert(x[i] == y[i]);
            law_ascii_code_points(a[i]);
            law_ascii_code_points(b[i]);
        }
    } else if a.len() == b.len() && forall|i: int|
        0 <= i < a.len() ==> ((#[trigger] a[i]) == b[i] || (65 <= a[i] as u32 <= 90
            && b[i] as u32 == a[i] as u32 + 32) || (65 <= b[i] as u32 <= 90 && a[i] as u32
            == b[i] as u32 + 32)) {
        assert forall|i: int| 0 <= i < a.len() implies x[i] == y[i] by {
            assert(a[i] == a[i]);
            law_ascii_code_points(a[i]);
            law_ascii_code_points(b[i]);
        }
        assert(x =~= y);
    }
}

/// Trimming the start drops exactly the characters of the class before the first other.
pub proof fn law_trim_start_drops_the_lead(lead: Seq<char>, rest: Seq<char>, class: CharClass)
    requires
        forall|i: int| 0 <= i < lead.len() ==> class.has(#[trigger] lead[i]),
        rest.len() > 0 ==> !class.has(rest.first()),
    ensures
        trim_start(lead + rest, class) == rest,
    decreases lead.len(),
{
    if lead.len() == 0 {
        assert(lead + rest =~= rest);
    } else {
        let others = lead.drop_first();
        assert(class.has(lead[0]));
        assert((lead + rest).drop_first() =~= others + rest);
        assert forall|i: int| 0 <= i < others.len() implies class.has(#[trigger] others[i]) by {
            assert(others[i] == lead[i + 1]);
        }
        law_trim_start_drops_the_lead(others, rest, class);
    }
}

proof fn lemma_trim_end_drops_the_tail(rest: Seq<char>, tail: Seq<char>, class: CharClass)
    requires
        forall|i: int| 0 <= i < tail.len() ==> class.has(#[trigger] tail[i]),
        rest.len() > 0 ==> !class.has(rest.last()),
    ensures
        trim_end(rest + tail, class) == rest,
    decreases tail.len(),
{
    if tail.len() == 0 {
        assert(rest + tail =~= rest);
    } else {
        let others = tail.drop_last();
        assert(class.has(tail[tail.len() - 1]));
        assert((rest + tail).drop_last() =~= rest + others);
        assert forall|i: int| 0 <= i < others.len() implies class.has(#[trigger] others[i]) by {
            assert(others[i] == tail[i]);
        }
        lemma_trim_end_drops_the_tail(rest, others, class);
    }
}

/// Trimming drops exactly the white space around a text.
pub proof fn law_trimmed_is_the_middle(lead: Seq<char>, middle: Seq<char>, tail: Seq<char>)
    requires
        all_white_space(lead),
        all_white_space(tail),
        middle.len() > 0 ==> !is_white_space(middle.first()) && !is_white_space(middle.last()),
    ensures
        trimmed(lead + middle + tail) == middle,
{
    let class = CharClass::WhiteSpace;
    if middle.len() == 0 {
        let all = lead + middle + tail;
        let none = Seq::<char>::empty();
        assert forall|i: int| 0 <= i < all.len() implies class.has(#[trigger] all[i]) by {
            if i < lead.len() {
                assert(all[i] == lead[i]);
            } else {
                assert(all[i] == tail[i - lead.len()]);
            }
        }
        law_trim_start_drops_the_lead(all, none, class);
        assert(all + none =~= all);
        assert(middle =~= none);
    } else {
        assert((middle + tail).first() == middle.first());
        law_trim_start_drops_the_lead(lead, middle + tail, class);
        assert(lead + middle + tail =~= lead + (middle + tail));
        lemma_trim_end_drops_the_tail(middle, tail, class);
    }
}

/// Every text is what trimming leaves of it, with white space around.
pub proof fn law_trimming_drops_only_white_space(s: Seq<char>) -> (ends: (Seq<char>, Seq<char>))
    ensures
        s == ends.0 + trimmed(s) + ends.1,
        all_white_space(ends.0),
        all_white_space(ends.1),
        trimmed(s).len() > 0 ==> !is_white_space(trimmed(s).first()) && !is_white_space(
            trimmed(s).last(),
        ),
{
    let class = CharClass::WhiteSpace;
    let lead = lemma_lead(s, class);
    let t = trim_start(s, class);
    let tail = lemma_tail(t, class);
    let middle = trim_end(t, class);
    assert(s =~= lead + middle + tail);
    assert forall|i: int| 0 <= i < lead.len() implies is_white_space(#[trigger] lead[i]) by {
        assert(class.has(lead[i]));
    }
    assert forall|i: int| 0 <= i < tail.len() implies is_white_space(#[trigger] tail[i]) by {
        assert(class.has(tail[i]));
    }
    if middle.len() > 0 {
        assert(middle.first() == t.first());
    }
    (lead, tail)
}

proof fn lemma_lead(s: Seq<char>, class: CharClass) -> (lead: Seq<char>)
    ensures
        s == lead + trim_start(s, class),
        forall|i: int| 0 <= i < lead.len() ==> class.has(#[trigger] lead[i]),
        trim_start(s, class).len() > 0 ==> !class.has(trim_start(s, class).first()),
    decreases s.len(),
{
    if s.len() > 0 && class.has(s.first()) {
        let others = lemma_lead(s.drop_first(), class);
        let lead = seq![s.first()] + others;
        assert(s =~= seq![s.first()] + s.drop_first());
        assert(s =~= lead + trim_start(s.drop_first(), class));
        lead
    } else {
        assert(s =~= Seq::<char>::empty() + s);
        Seq::empty()
    }
}

proof fn lemma_tail(s: Seq<char>, class: CharClass) -> (tail: Seq<char>)
    ensures
        s == trim_end(s, class) + tail,
        forall|i: int| 0 <= i < tail.len() ==> class.has(#[trigger] tail[i]),
        trim_end(s, class).len() > 0 ==> !class.has(trim_end(s, class).last()),
    decreases s.len(),
{
    if s.len() > 0 && class.has(s.last()) {
        let others = lemma_tail(s.drop_last(), class);
        let tail = others.push(s.last());
        assert(s =~= s.drop_last().push(s.last()));
        assert(s =~= trim_end(s.drop_last(), class) + tail);
        tail
    } else {
        assert(s =~= s + Seq::<char>::empty());
        Seq::empty()
    }
}

/// A text occurs in another exactly when the other is that text with something before
/// and after it.
pub proof fn law_substring_is_a_middle(s: Seq<char>, part: Seq<char>)
    ensures
        is_substring(s, part) <==> exists|before: Seq<char>, after: Seq<char>|
            s == #[trigger] (before + part + after),
{
    if is_substring(s, part) {
        let i = choose|i: int|
            0 <= i && i + part.len() <= s.len() && #[trigger] s.subrange(i, i + part.len())
                == part;
        let before = s.take(i);
        let after = s.skip(i + part.len());
        assert forall|k: int| 0 <= k < part.len() implies s[i + k] == part[k] by {
            assert(s.subrange(i, i + part.len())[k] == part[k]);
        }
        assert(s =~= before + part + after);
    }
    if exists|before: Seq<char>, after: Seq<char>| s == #[trigger] (before + part + after) {
        let (before, after) = choose|before: Seq<char>, after: Seq<char>|
            s == #[trigger] (before + part + after);
        let i = before.len() as int;
        assert(s.subrange(i, i + part.len()) =~= part);
    }
}

/// A digit more makes the number ten times as large and adds the digit; two runs of
/// digits put together are the first, shifted by the length of the second, and the second.
pub proof fn law_digits_are_decimal(a: Seq<char>, b: Seq<char>, d: nat)
    requires
        d < 10,
    ensures
        digit(d) as u32 == 48 + d,
        digits_value(seq![digit(d)]) == d,
        digits_value(a + b) == digits_value(a) * pow(10, b.len()) + digits_value(b),
    decreases b.len(),
{
    assert(seq![digit(d)].drop_last() =~= Seq::<char>::empty());
    assert(digits_value(Seq::<char>::empty()) == 0);
    if b.len() == 0 {
        assert(a + b =~= a);
        assert(pow(10, 0) == 1) by {
            reveal(pow);
        }
    } else {
        let c = b.drop_last();
        law_digits_are_decimal(a, c, d);
        assert((a + b).drop_last() =~= a + c);
        assert(pow(10, b.len()) == 10 * pow(10, c.len())) by {
            reveal(pow);
        }
        let v = digits_value(a) as int;
        let p = pow(10, c.len());
        assert((v * p) * 10 == v * (10 * p)) by (nonlinear_arith);
    }
}

/// Digits without leading zeros are the decimal notation of the number they stand for, so
/// a number has one such notation.
pub proof fn law_one_decimal_notation(s: Seq<char>)
    requires
        s.len() > 0,
        all_digits(s),
        s.len() > 1 ==> s.first() != '0',
    ensures
        s == decimal(digits_value(s)),
    decreases s.len(),
{
    let c = s[s.len() - 1];
    assert(is_digit(c));
    let d = (c as u32 - 48) as nat;
    char_u32_cast(c, (48 + d) as u32);
    assert(digit(d) == c);
    if s.len() == 1 {
        assert(s.drop_last() =~= Seq::<char>::empty());
        assert(digits_value(s.drop_last()) == 0);
        assert(s =~= decimal(d));
    } else {
        let t = s.drop_last();
        assert forall|i: int| 0 <= i < t.len() implies is_digit(#[trigger] t[i]) by {
            assert(t[i] == s[i]);
        }
        law_one_decimal_notation(t);
        let v = digits_value(t);
        if v == 0 {
            assert(t == decimal(0));
            assert(t[0] == digit(0));
            assert(digit(0) == '0');
        }
        assert(s =~= t.push(digit(d)));
    }
}

/// Decimal notation has no leading zeros.
pub proof fn law_decimal_has_no_leading_zero(n: nat)
    ensures
        decimal(n).len() > 1 ==> decimal(n).first() != '0',
        n > 0 ==> decimal(n).first() != '0',
    decreases n,
{
    if n >= 10 {
        law_decimal_has_no_leading_zero(n / 10);
        law_decimal_reads_back(n / 10);
    }
}

/// Joining adds a separator and a piece at a time.
pub proof fn law_joined_piece_by_piece(parts: Seq<Seq<char>>, part: Seq<char>, sep: Seq<char>)
    ensures
        joined(Seq::empty(), sep) == Seq::<char>::empty(),
        joined(seq![part], sep) == part,
        parts.len() > 0 ==> joined(parts.push(part), sep) == joined(parts, sep) + sep + part,
{
    assert(parts.push(part).drop_last() =~= parts);
}

/// Replacing goes character by character: of two texts put together, each is replaced by
/// itself.
pub proof fn law_expanded_piece_by_piece(
    a: Seq<char>,
    b: Seq<char>,
    c: char,
    f: spec_fn(char) -> Seq<char>,
)
    ensures
        expanded(Seq::empty(), f) == Seq::<char>::empty(),
        expanded(seq![c], f) == f(c),
        expanded(a + b, f) == expanded(a, f) + expanded(b, f),
    decreases b.len(),
{
    assert(seq![c].drop_last() =~= Seq::<char>::empty());
    assert(expanded(Seq::<char>::empty(), f) =~= Seq::<char>::empty());
    assert(expanded(seq![c], f) =~= f(c));
    if b.len() == 0 {
        assert(a + b =~= a);
        assert(expanded(a + b, f) =~= expanded(a, f) + expanded(b, f));
    } else {
        law_expanded_piece_by_piece(a, b.drop_last(), c, f);
        assert((a + b).drop_last() =~= a + b.drop_last());
        assert(expanded(a + b, f) =~= expanded(a, f) + expanded(b, f));
    }
}

/// A text with every `c` replaced by `by`.
pub open spec fn replaced(s: Seq<char>, c: char, by: Seq<char>) -> Seq<char> {
    joined(pieces(s, CharClass::Only(c)), by)
}

/// What replaces a character when every `c` is replaced by `by`.
pub open spec fn replacement(c: char, by: Seq<char>) -> spec_fn(char) -> Seq<char> {
    |x: char|
        if x == c {
            by
        } else {
            seq![x]
        }
}

/// Replacing one character is splitting at it and joining again.
pub proof fn lemma_replaced(s: Seq<char>, c: char, by: Seq<char>)
    ensures
        replaced(s, c, by) == expanded(s, replacement(c, by)),
    decreases s.len(),
{
    let class = CharClass::Only(c);
    let f = replacement(c, by);
    if s.len() == 0 {
        assert(replaced(s, c, by) =~= expanded(s, f));
    } else {
        let t = s.drop_last();
        let before = pieces(t, class);
        let all = pieces(s, class);
        lemma_replaced(t, c, by);
        lemma_pieces_are_free(t, class);
        if s.last() == c {
            assert(all.drop_last() =~= before);
            assert(replaced(s, c, by) =~= replaced(t, c, by) + by);
        } else {
            assert(all.drop_last() =~= before.drop_last());
            assert(replaced(s, c, by) =~= replaced(t, c, by).push(s.last()));
            assert(f(s.last()) == seq![s.last()]);
        }
        assert(replaced(s, c, by) =~= expanded(s, f));
    }
}

/// Replacing twice is replacing once, by what the second makes of the first.
pub proof fn lemma_expanded_twice(
    s: Seq<char>,
    f: spec_fn(char) -> Seq<char>,
    g: spec_fn(char) -> Seq<char>,
    h: spec_fn(char) -> Seq<char>,
)
    requires
        forall|c: char| #[trigger] h(c) == expanded(f(c), g),
    ensures
        expanded(expanded(s, f), g) == expanded(s, h),
    decreases s.len(),
{
    if s.len() > 0 {
        lemma_expanded_twice(s.drop_last(), f, g, h);
        law_expanded_piece_by_piece(expanded(s.drop_last(), f), f(s.last()), ' ', g);
        assert(h(s.last()) == expanded(f(s.last()), g));
    }
}

/// A list of strings, or of character vectors, as texts has each of them in its place.
pub proof fn law_lists_as_texts(strings: Seq<String>, vectors: Seq<Vec<char>>, i: int)
    ensures
        texts(strings).len() == strings.len(),
        contents(vectors).len() == vectors.len(),
        0 <= i < strings.len() ==> texts(strings)[i] == strings[i]@,
        0 <= i < vectors.len() ==> contents(vectors)[i] == vectors[i]@,
{
}

/// What is split, trimmed, written, compared and looked for, said of the results.
pub proof fn law_results_on_texts(
    s: &str,
    t: &str,
    n: u64,
    written: String,
    same: bool,
    alike: bool,
    holds: bool,
)
    requires
        call_ensures(decimal_text, (n,), written),
        call_ensures(same_text, (s, t), same),
        call_ensures(eq_ignoring_case, (s, t), alike),
        call_ensures(contains, (s, t), holds),
    ensures
        all_digits(written@),
        written@.len() > 0,
        digits_value(written@) == n,
        n > 0 ==> written@.first() != '0',
        same <==> s@ == t@,
        same ==> alike && holds,
        alike <==> s@.len() == t@.len() && forall|i: int|
            0 <= i < s@.len() ==> ((#[trigger] s@[i]) == t@[i] || (65 <= s@[i] as u32 <= 90
                && t@[i] as u32 == s@[i] as u32 + 32) || (65 <= t@[i] as u32 <= 90 && s@[i] as u32
                == t@[i] as u32 + 32)),
        holds <==> exists|before: Seq<char>, after: Seq<char>|
            s@ == #[trigger] (before + t@ + after),
{
    law_decimal_reads_back(n as nat);
    law_decimal_has_no_leading_zero(n as nat);
    law_same_up_to_case(s@, t@);
    law_substring_is_a_middle(s@, t@);
    if same {
        assert(s@ =~= Seq::<char>::empty() + t@ + Seq::<char>::empty());
    }
}

/// A text is split at each separator and nowhere else: the pieces hold no separator, and
/// joined by separators they are the text.
pub proof fn law_pieces_of_a_text(s: &[char], sep: char, r: Vec<Vec<char>>)
    requires
        call_ensures(split, (s, &CharClass::Only(sep)), r),
    ensures
        r@.len() >= 1,
        joined(contents(r@), seq![sep]) == s@,
        forall|i: int| 0 <= i < r@.len() ==> !(#[trigger] r@[i])@.contains(sep),
{
    law_split_then_join(s@, sep);
    assert forall|i: int| 0 <= i < r@.len() implies !(#[trigger] r@[i])@.contains(sep) by {
        assert(contents(r@)[i] == r@[i]@);
        if r@[i]@.contains(sep) {
            let k = choose|k: int| 0 <= k < r@[i]@.len() && r@[i]@[k] == sep;
            assert(CharClass::Only(sep).has(r@[i]@[k]));
        }
    }
}

/// Words with white space between them, and any around them, are read as those words.
pub proof fn law_words_of_a_text(
    list: Seq<Seq<char>>,
    gaps: Seq<Seq<char>>,
    s: &str,
    r: Vec<Vec<char>>,
)
    requires
        forall|i: int| 0 <= i < list.len() ==> is_word(#[trigger] list[i]),
        are_gaps(gaps, list.len()),
        s@ == spaced(list, gaps),
        call_ensures(split_words, (s,), r),
    ensures
        contents(r@) == list,
{
    law_spacing_does_not_matter(list, gaps);
}

/// Trimming gives what stands between the white space around a text.
pub proof fn law_trim_gives_the_middle(
    lead: Seq<char>,
    middle: Seq<char>,
    tail: Seq<char>,
    s: &[char],
    r: &[char],
)
    requires
        all_white_space(lead),
        all_white_space(tail),
        middle.len() > 0 ==> !is_white_space(middle.first()) && !is_white_space(middle.last()),
        s@ == lead + middle + tail,
        call_ensures(trim, (s,), r),
    ensures
        r@ == middle,
{
    law_trimmed_is_the_middle(lead, middle, tail);
}

} // verus!
