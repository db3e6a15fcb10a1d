//! The list of servers: DNS names, separated by white space, each taken once.
use crate::text;
use crate::text::CharClass;
use vstd::prelude::*;
use vstd::string::*;
use vstd::utf8::*;

verus! {

/// The most characters that a DNS name can have.
pub const MAX_NAME: usize = 253;

/// The most characters between two dots of a DNS name.
pub const MAX_LABEL: usize = 63;

/// What is said of a list without words.
pub const NO_SERVERS: &'static str = "Ingresa al menos un servidor.";

/// What stands before a word that is no server name.
pub const INVALID_BEFORE: &'static str = "Servidor invalido: ";

/// What stands after a word that is no server name.
pub const INVALID_AFTER: &'static str = ". Usa nombres DNS, no IP (autenticacion Kerberos).";

/// One part of a DNS name: ASCII letters, digits and hyphens, with a letter or a digit
/// at both ends.
pub open spec fn is_label(s: Seq<char>) -> bool {
    &&& 0 < s.len() <= MAX_LABEL
    &&& forall|i: int| 0 <= i < s.len() ==> text::is_alphanumeric(#[trigger] s[i]) || s[i] == '-'
    &&& text::is_alphanumeric(s.first())
    &&& text::is_alphanumeric(s.last())
}

/// The parts of a name between its dots.
pub open spec fn labels(s: Seq<char>) -> Seq<Seq<char>> {
    text::pieces(s, CharClass::Only('.'))
}

/// A number from 0 to 255 in decimal notation without leading zeros.
pub open spec fn is_octet(s: Seq<char>) -> bool {
    &&& 0 < s.len() <= 3
    &&& text::all_digits(s)
    &&& s.len() > 1 ==> s.first() != '0'
    &&& text::digits_value(s) <= 255
}

/// An IPv4 address in dotted decimal notation.
pub open spec fn is_ipv4(s: Seq<char>) -> bool {
    &&& labels(s).len() == 4
    &&& forall|i: int| 0 <= i < 4 ==> is_octet(#[trigger] labels(s)[i])
}

/// A DNS name that is not an address. (An IPv6 address holds a colon, so its parts are
/// no labels.)
pub open spec fn is_server_name(s: Seq<char>) -> bool {
    &&& s.len() <= MAX_NAME
    &&& forall|i: int| 0 <= i < labels(s).len() ==> is_label(#[trigger] labels(s)[i])
    &&& !is_ipv4(s)
}

/// The first word that is no server name.
pub open spec fn first_invalid(list: Seq<Seq<char>>) -> Option<Seq<char>>
    decreases list.len(),
{
    if list.len() == 0 {
        None
    } else {
        match first_invalid(list.drop_last()) {
            Some(w) => Some(w),
            None => if is_server_name(list.last()) {
                None
            } else {
                Some(list.last())
            },
        }
    }
}

/// `name` is in the list, in some spelling.
pub open spec fn is_listed(list: Seq<Seq<char>>, name: Seq<char>) -> bool {
    exists|i: int| 0 <= i < list.len() && text::same_ignoring_case(#[trigger] list[i], name)
}

/// The list without the names that an earlier name equals up to case.
pub open spec fn first_spellings(list: Seq<Seq<char>>) -> Seq<Seq<char>>
    decreases list.len(),
{
    if list.len() == 0 {
        Seq::empty()
    } else {
        let before = first_spellings(list.drop_last());
        if is_listed(before, list.last()) {
            before
        } else {
            before.push(list.last())
        }
    }
}

/// What is said of a word that is no server name.
pub open spec fn invalid_message(word: Seq<char>) -> Seq<char> {
    INVALID_BEFORE@ + word + INVALID_AFTER@
}

fn label(s: &[char]) -> (r: bool)
    ensures
        r == is_label(s@),
{
    if s.len() == 0 || s.len() > MAX_LABEL {
        return false;
    }
    let mut i: usize = 0;
    while i < s.len()
        invariant
            i <= s.len(),
            forall|j: int| 0 <= j < i ==> text::is_alphanumeric(#[trigger] s@[j]) || s@[j] == '-',
        decreases s.len() - i,
    {
        if !text::alphanumeric(s[i]) && s[i] != '-' {
            return false;
        }
        i += 1;
    }
    text::alphanumeric(s[0]) && text::alphanumeric(s[s.len() - 1])
}

fn octet(s: &[char]) -> (r: bool)
    ensures
        r == is_octet(s@),
{
    if s.len() == 0 || s.len() > 3 || (s.len() > 1 && s[0] == '0') {
        return false;
    }
    text::read_digits(s, 255).is_some()
}

/// Whether `s` is an IPv4 address.
pub fn ipv4(s: &[char]) -> (r: bool)
    ensures
        r == is_ipv4(s@),
{
    let parts = text::split(s, &CharClass::Only('.'));
    if parts.len() != 4 {
        return false;
    }
    let mut i: usize = 0;
    while i < parts.len()
        invariant
            i <= parts.len() == 4,
            text::contents(parts@) == labels(s@),
            forall|j: int| 0 <= j < i ==> is_octet(#[trigger] labels(s@)[j]),
        decreases parts.len() - i,
    {
        assert(text::contents(parts@)[i as int] == parts@[i as int]@);
        if !octet(parts[i].as_slice()) {
            return false;
        }
        i += 1;
    }
    true
}

/// Whether `s` is a server name.
pub fn server_name(s: &[char]) -> (r: bool)
    ensures
        r == is_server_name(s@),
{
    if s.len() > MAX_NAME {
        return false;
    }
    let parts = text::split(s, &CharClass::Only('.'));
    let mut i: usize = 0;
    while i < parts.len()
        invariant
            i <= parts.len(),
            text::contents(parts@) == labels(s@),
            forall|j: int| 0 <= j < i ==> is_label(#[trigger] labels(s@)[j]),
        decreases parts.len() - i,
    {
        assert(text::contents(parts@)[i as int] == parts@[i as int]@);
        if !label(parts[i].as_slice()) {
            return false;
        }
        i += 1;
    }
    !ipv4(s)
}

fn listed(names: &Vec<String>, name: &str) -> (r: bool)
    ensures
        r == is_listed(text::texts(names@), name@),
{
    let mut i: usize = 0;
    while i < names.len()
        invariant
            i <= names.len(),
            forall|j: int|
                0 <= j < i ==> !text::same_ignoring_case(#[trigger] text::texts(names@)[j], name@),
        decreases names.len() - i,
    {
        if text::eq_ignoring_case(names[i].as_str(), name) {
            assert(text::same_ignoring_case(text::texts(names@)[i as int], name@));
            return true;
        }
        i += 1;
    }
    false
}

/// Reads a list of servers. Every word has to be a server name, and there has to be
/// one; of names that differ only in case the first is kept.
pub fn servers(input: &str) -> (r: Result<Vec<String>, String>)
    ensures
        match r {
            Ok(names) => {
                &&& first_invalid(text::words(input@)) is None
                &&& text::words(input@).len() > 0
                &&& text::texts(names@) == first_spellings(text::words(input@))
            },
            Err(e) => match first_invalid(text::words(input@)) {
                Some(word) => e@ == invalid_message(word),
                None => text::words(input@).len() == 0 && e@ == NO_SERVERS@,
            },
        },
{
    let list = text::split_words(input);
    let mut names: Vec<String> = Vec::new();
    let mut i: usize = 0;
    let ghost all = text::contents(list@);
    assert(text::texts(names@) =~= first_spellings(all.take(0)));
    while i < list.len()
        invariant
            i <= list.len(),
            all == text::contents(list@),
            all == text::words(input@),
            first_invalid(all.take(i as int)) is None,
            text::texts(names@) == first_spellings(all.take(i as int)),
            i > 0 ==> names@.len() > 0,
        decreases list.len() - i,
    {
        proof {
            assert(all.take(i + 1).drop_last() =~= all.take(i as int));
            assert(all.take(i + 1).last() == list@[i as int]@);
        }
        if !server_name(list[i].as_slice()) {
            proof {
                lemma_first_invalid_stays(all, i + 1);
            }
            let word = text::string_of(list[i].as_slice());
            let mut e = INVALID_BEFORE.to_owned();
            e.append(word.as_str());
            e.append(INVALID_AFTER);
            return Err(e);
        }
        let name = text::string_of(list[i].as_slice());
        if !listed(&names, name.as_str()) {
            let ghost before = text::texts(names@);
            let ghost added = name@;
            names.push(name);
            assert(text::texts(names@) =~= before.push(added));
        }
        i += 1;
    }
    assert(all.take(all.len() as int) =~= all);
    if names.len() == 0 {
        return Err(NO_SERVERS.to_owned());
    }
    Ok(names)
}

proof fn lemma_first_invalid_stays(list: Seq<Seq<char>>, n: int)
    requires
        0 <= n <= list.len(),
        first_invalid(list.take(n)) is Some,
    ensures
        first_invalid(list) == first_invalid(list.take(n)),
    decreases list.len(),
{
    if n < list.len() {
        assert(list.drop_last().take(n) =~= list.take(n));
        lemma_first_invalid_stays(list.drop_last(), n);
    } else {
        assert(list.take(n) =~= list);
    }
}

/// A server name holds nothing but ASCII letters, digits, hyphens and dots, so that it
/// cannot carry a command, a path or an address with a colon.
pub proof fn law_names_are_plain(s: Seq<char>)
    requires
        is_server_name(s),
    ensures
        s.len() > 0,
        forall|i: int|
            0 <= i < s.len() ==> text::is_alphanumeric(#[trigger] s[i]) || s[i] == '-' || s[i]
                == '.',
{
    assert(is_label(labels(s)[0])) by {
        text::law_split_then_join(s, '.');
    }
    lemma_plain_pieces(s);
}

spec fn is_plain(s: Seq<char>) -> bool {
    forall|i: int| 0 <= i < s.len() ==> text::is_alphanumeric(#[trigger] s[i]) || s[i] == '-'
}

proof fn lemma_plain_pieces(s: Seq<char>)
    requires
        forall|k: int| 0 <= k < labels(s).len() ==> is_plain(#[trigger] labels(s)[k]),
    ensures
        forall|i: int|
            0 <= i < s.len() ==> text::is_alphanumeric(#[trigger] s[i]) || s[i] == '-' || s[i]
                == '.',
    decreases s.len(),
{
    if s.len() > 0 {
        let t = s.drop_last();
        text::law_split_then_join(t, '.');
        let last = labels(s)[labels(s).len() - 1];
        assert(is_plain(last));
        assert forall|k: int| 0 <= k < labels(t).len() implies is_plain(#[trigger] labels(t)[k]) by {
            assert(is_plain(labels(s)[k]));
            if k == labels(t).len() - 1 && s.last() != '.' {
                assert forall|i: int| 0 <= i < labels(t)[k].len() implies text::is_alphanumeric(
                    #[trigger] labels(t)[k][i],
                ) || labels(t)[k][i] == '-' by {
                    assert(labels(s)[k][i] == labels(t)[k][i]);
                }
            }
        }
        lemma_plain_pieces(t);
        assert forall|i: int| 0 <= i < s.len() implies text::is_alphanumeric(#[trigger] s[i])
            || s[i] == '-' || s[i] == '.' by {
            if i < t.len() {
                assert(t[i] == s[i]);
            } else if s[i] != '.' {
                assert(last[last.len() - 1] == s[i]);
            }
        }
    }
}

/// A server name takes as many bytes as it has characters, 253 at most.
pub proof fn law_names_are_short(s: Seq<char>)
    requires
        is_server_name(s),
    ensures
        encode_utf8(s).len() == s.len() <= 253,
{
    law_names_are_plain(s);
    assert(is_ascii_chars(s));
    is_ascii_chars_encode_utf8(s);
}

/// Each word of a list is kept once: every kept name is one of the words, every word is
/// kept in some spelling, and no two kept names are equal up to case.
pub proof fn law_each_server_once(list: Seq<Seq<char>>)
    ensures
        forall|i: int| 0 <= i < list.len() ==> is_listed(first_spellings(list), #[trigger] list[i]),
        forall|k: int|
            0 <= k < first_spellings(list).len() ==> list.contains(
                #[trigger] first_spellings(list)[k],
            ),
        forall|j: int, k: int|
            0 <= j < k < first_spellings(list).len() ==> !text::same_ignoring_case(
                #[trigger] first_spellings(list)[j],
                #[trigger] first_spellings(list)[k],
            ),
    decreases list.len(),
{
    if list.len() > 0 {
        let init = list.drop_last();
        let before = first_spellings(init);
        let kept = first_spellings(list);
        law_each_server_once(init);
        assert forall|i: int| 0 <= i < list.len() implies is_listed(kept, #[trigger] list[i]) by {
            if i < init.len() {
                assert(init[i] == list[i]);
                let k = choose|k: int|
                    0 <= k < before.len() && text::same_ignoring_case(#[trigger] before[k], list[i]);
                assert(kept[k] == before[k]);
            } else if !is_listed(before, list[i]) {
                assert(text::same_ignoring_case(kept[kept.len() - 1], list[i]));
            }
        }
        assert forall|k: int| 0 <= k < kept.len() implies list.contains(#[trigger] kept[k]) by {
            if k < before.len() {
                assert(init.contains(before[k]));
                let i = choose|i: int| 0 <= i < init.len() && init[i] == before[k];
                assert(list[i] == kept[k]);
            } else {
                assert(list[list.len() - 1] == kept[k]);
            }
        }
        assert forall|j: int, k: int| 0 <= j < k < kept.len() implies !text::same_ignoring_case(
            #[trigger] kept[j],
            #[trigger] kept[k],
        ) by {
            assert(kept[j] == before[j]);
            if k < before.len() {
                assert(!text::same_ignoring_case(before[j], before[k]));
            } else {
                assert(!text::same_ignoring_case(before[j], list.last()));
            }
        }
    }
}

proof fn lemma_distinct_names_stay(list: Seq<Seq<char>>)
    requires
        forall|j: int, k: int|
            0 <= j < k < list.len() ==> !text::same_ignoring_case(#[trigger] list[j], #[trigger] list[k]),
    ensures
        first_spellings(list) == list,
    decreases list.len(),
{
    if list.len() > 0 {
        let init = list.drop_last();
        assert forall|j: int, k: int| 0 <= j < k < init.len() implies !text::same_ignoring_case(
            #[trigger] init[j],
            #[trigger] init[k],
        ) by {
            assert(!text::same_ignoring_case(list[j], list[k]));
        }
        lemma_distinct_names_stay(init);
        assert(!is_listed(init, list.last())) by {
            if is_listed(init, list.last()) {
                let j = choose|j: int|
                    0 <= j < init.len() && text::same_ignoring_case(
                        #[trigger] init[j],
                        list.last(),
                    );
                assert(!text::same_ignoring_case(list[j], list[list.len() - 1]));
            }
        }
        assert(init.push(list.last()) =~= list);
    } else {
        assert(list =~= Seq::<Seq<char>>::empty());
    }
}

proof fn lemma_all_valid(list: Seq<Seq<char>>)
    ensures
        first_invalid(list) is None <==> forall|i: int|
            0 <= i < list.len() ==> is_server_name(#[trigger] list[i]),
    decreases list.len(),
{
    if list.len() > 0 {
        let init = list.drop_last();
        lemma_all_valid(init);
        assert forall|i: int| 0 <= i < init.len() implies init[i] == #[trigger] list[i] by {}
        if first_invalid(list) is None {
            assert forall|i: int| 0 <= i < list.len() implies is_server_name(#[trigger] list[i]) by {
                if i < init.len() {
                    assert(is_server_name(init[i]));
                }
            }
        } else if forall|i: int| 0 <= i < list.len() ==> is_server_name(#[trigger] list[i]) {
            assert forall|i: int| 0 <= i < init.len() implies is_server_name(#[trigger] init[i]) by {
                assert(is_server_name(list[i]));
            }
            assert(is_server_name(list[list.len() - 1]));
        }
    }
}

/// An accepted list is made of server names.
pub proof fn law_only_server_names(list: Seq<Seq<char>>)
    requires
        first_invalid(list) is None,
    ensures
        forall|k: int|
            0 <= k < first_spellings(list).len() ==> is_server_name(
                #[trigger] first_spellings(list)[k],
            ),
{
    lemma_all_valid(list);
    law_each_server_once(list);
    assert forall|k: int| 0 <= k < first_spellings(list).len() implies is_server_name(
        #[trigger] first_spellings(list)[k],
    ) by {
        assert(list.contains(first_spellings(list)[k]));
    }
}

proof fn lemma_case_of_a_character(c: char, d: char)
    requires
        text::ascii_lower(c) == text::ascii_lower(d),
    ensures
        text::is_alphanumeric(c) == text::is_alphanumeric(d),
        c == '-' <==> d == '-',
        c == '.' <==> d == '.',
        text::is_digit(c) || text::is_digit(d) ==> c == d,
{
}

proof fn lemma_same_at(a: Seq<char>, b: Seq<char>, i: int)
    requires
        text::same_ignoring_case(a, b),
        0 <= i < a.len(),
    ensures
        a.len() == b.len(),
        text::ascii_lower(a[i]) == text::ascii_lower(b[i]),
{
    assert(text::ascii_lowercase(a).len() == text::ascii_lowercase(b).len());
    assert(text::ascii_lowercase(a)[i] == text::ascii_lowercase(b)[i]);
}

proof fn lemma_same_labels(a: Seq<char>, b: Seq<char>)
    requires
        text::same_ignoring_case(a, b),
    ensures
        labels(a).len() == labels(b).len(),
        forall|k: int|
            0 <= k < labels(a).len() ==> text::same_ignoring_case(
                #[trigger] labels(a)[k],
                labels(b)[k],
            ),
    decreases a.len(),
{
    assert(text::ascii_lowercase(a).len() == text::ascii_lowercase(b).len());
    if a.len() > 0 {
        let x = a.drop_last();
        let y = b.drop_last();
        assert forall|i: int| 0 <= i < x.len() implies text::ascii_lower(x[i])
            == text::ascii_lower(y[i]) by {
            lemma_same_at(a, b, i);
        }
        assert(text::same_ignoring_case(x, y));
        lemma_same_labels(x, y);
        lemma_same_at(a, b, a.len() - 1);
        lemma_case_of_a_character(a.last(), b.last());
        text::lemma_pieces_are_free(x, CharClass::Only('.'));
        assert forall|k: int| 0 <= k < labels(a).len() implies text::same_ignoring_case(
            #[trigger] labels(a)[k],
            labels(b)[k],
        ) by {
            if k < labels(x).len() {
                assert(text::same_ignoring_case(labels(x)[k], labels(y)[k]));
                if k == labels(x).len() - 1 && a.last() != '.' {
                    let u = labels(x)[k];
                    let v = labels(y)[k];
                    assert(text::ascii_lowercase(u).len() == text::ascii_lowercase(v).len());
                    assert forall|i: int| 0 <= i < u.len() implies text::ascii_lower(u[i])
                        == text::ascii_lower(v[i]) by {
                        lemma_same_at(u, v, i);
                    }
                    assert(text::same_ignoring_case(u.push(a.last()), v.push(b.last())));
                }
            }
        }
    }
}

proof fn lemma_case_of_a_label(a: Seq<char>, b: Seq<char>)
    requires
        text::same_ignoring_case(a, b),
    ensures
        is_label(a) ==> is_label(b),
        is_octet(a) ==> a == b,
{
    assert(text::ascii_lowercase(a).len() == text::ascii_lowercase(b).len());
    assert forall|i: int| 0 <= i < a.len() implies text::is_alphanumeric(#[trigger] a[i])
        == text::is_alphanumeric(b[i]) && (a[i] == '-' <==> b[i] == '-') && (text::is_digit(a[i])
        ==> a[i] == b[i]) by {
        lemma_same_at(a, b, i);
        lemma_case_of_a_character(a[i], b[i]);
    }
    if is_label(a) {
        assert forall|i: int| 0 <= i < b.len() implies text::is_alphanumeric(#[trigger] b[i])
            || b[i] == '-' by {
            assert(text::is_alphanumeric(a[i]) || a[i] == '-');
        }
        assert(text::is_alphanumeric(a[0]));
        assert(text::is_alphanumeric(a[a.len() - 1]));
    }
    if is_octet(a) {
        assert forall|i: int| 0 <= i < a.len() implies a[i] == b[i] by {
            assert(text::is_digit(a[i]));
        }
        assert(a =~= b);
    }
}

proof fn lemma_case_of_a_name(a: Seq<char>, b: Seq<char>)
    requires
        text::same_ignoring_case(a, b),
        is_server_name(a),
    ensures
        is_server_name(b),
{
    assert(text::ascii_lowercase(a).len() == text::ascii_lowercase(b).len());
    lemma_same_labels(a, b);
    assert forall|k: int| 0 <= k < labels(b).len() implies is_label(#[trigger] labels(b)[k]) by {
        assert(is_label(labels(a)[k]));
        lemma_case_of_a_label(labels(a)[k], labels(b)[k]);
    }
    if is_ipv4(b) {
        assert forall|k: int| 0 <= k < 4 implies is_octet(#[trigger] labels(a)[k]) by {
            assert(is_octet(labels(b)[k]));
            assert(text::same_ignoring_case(labels(a)[k], labels(b)[k]));
            lemma_case_of_a_label(labels(b)[k], labels(a)[k]);
        }
    }
}

/// Whether a name is accepted does not depend on the case of its letters.
pub proof fn law_case_does_not_decide(a: Seq<char>, b: Seq<char>)
    requires
        text::same_ignoring_case(a, b),
    ensures
        is_server_name(a) == is_server_name(b),
{
    if is_server_name(a) {
        lemma_case_of_a_name(a, b);
    }
    if is_server_name(b) {
        lemma_case_of_a_name(b, a);
    }
}

/// A further spelling of a word, anywhere after it in the list, changes nothing: neither
/// the names that are kept nor the word that is refused.
pub proof fn law_further_spelling_changes_nothing(
    list: Seq<Seq<char>>,
    word: Seq<char>,
    rest: Seq<Seq<char>>,
)
    requires
        is_listed(list, word),
    ensures
        first_spellings(list.push(word) + rest) == first_spellings(list + rest),
        first_invalid(list.push(word) + rest) == first_invalid(list + rest),
    decreases rest.len(),
{
    let longer = list.push(word) + rest;
    let shorter = list + rest;
    if rest.len() == 0 {
        assert(longer =~= list.push(word));
        assert(shorter =~= list);
        assert(list.push(word).drop_last() =~= list);
        let i = choose|i: int|
            0 <= i < list.len() && text::same_ignoring_case(#[trigger] list[i], word);
        law_each_server_once(list);
        assert(is_listed(first_spellings(list), list[i]));
        let k = choose|k: int|
            0 <= k < first_spellings(list).len() && text::same_ignoring_case(
                #[trigger] first_spellings(list)[k],
                list[i],
            );
        assert(text::same_ignoring_case(first_spellings(list)[k], word));
        lemma_all_valid(list);
        if first_invalid(list) is None {
            assert(is_server_name(list[i]));
            law_case_does_not_decide(list[i], word);
        }
    } else {
        law_further_spelling_changes_nothing(list, word, rest.drop_last());
        assert(longer.drop_last() =~= list.push(word) + rest.drop_last());
        assert(shorter.drop_last() =~= list + rest.drop_last());
    }
}

proof fn lemma_further_spellings(names: Seq<Seq<char>>, more: Seq<Seq<char>>)
    requires
        forall|i: int| 0 <= i < more.len() ==> is_listed(names, #[trigger] more[i]),
    ensures
        first_spellings(names + more) == first_spellings(names),
        first_invalid(names + more) == first_invalid(names),
    decreases more.len(),
{
    if more.len() == 0 {
        assert(names + more =~= names);
    } else {
        let init = more.drop_last();
        let list = names + init;
        assert forall|i: int| 0 <= i < init.len() implies is_listed(names, #[trigger] init[i]) by {
            assert(init[i] == more[i]);
        }
        lemma_further_spellings(names, init);
        assert(is_listed(names, more[more.len() - 1]));
        let k = choose|k: int|
            0 <= k < names.len() && text::same_ignoring_case(#[trigger] names[k], more.last());
        assert(list[k] == names[k]);
        law_further_spelling_changes_nothing(list, more.last(), Seq::empty());
        assert(list.push(more.last()) + Seq::empty() =~= names + more);
        assert(list + Seq::empty() =~= list);
    }
}

/// A list that was accepted reads as itself when it is written out again, with any white
/// space around its names, and with any further spellings of its names after them.
pub proof fn law_accepted_list_reads_back(
    input: Seq<char>,
    more: Seq<Seq<char>>,
    gaps: Seq<Seq<char>>,
)
    requires
        first_invalid(text::words(input)) is None,
        text::words(input).len() > 0,
        forall|i: int|
            0 <= i < more.len() ==> is_listed(
                first_spellings(text::words(input)),
                #[trigger] more[i],
            ),
        text::are_gaps(gaps, first_spellings(text::words(input)).len() + more.len()),
    ensures
        ({
            let names = first_spellings(text::words(input));
            let again = text::words(text::spaced(names + more, gaps));
            &&& again == names + more
            &&& again.len() > 0
            &&& first_invalid(again) is None
            &&& first_spellings(again) == names
        }),
{
    let list = text::words(input);
    let names = first_spellings(list);
    let again = names + more;
    law_only_server_names(list);
    law_each_server_once(list);
    assert(is_listed(names, list[0]));
    lemma_distinct_names_stay(names);
    lemma_all_valid(names);
    lemma_further_spellings(names, more);
    lemma_all_valid(again);
    assert forall|k: int| 0 <= k < again.len() implies text::is_word(#[trigger] again[k]) by {
        law_names_are_plain(again[k]);
    }
    text::law_spacing_does_not_matter(again, gaps);
}

/// An octet is the decimal notation of a number up to 255, and nothing else is.
proof fn lemma_octet_is_decimal(s: Seq<char>)
    ensures
        is_octet(s) <==> exists|n: nat| n <= 255 && s == #[trigger] text::decimal(n),
{
    if is_octet(s) {
        text::law_one_decimal_notation(s);
        assert(s == text::decimal(text::digits_value(s)));
    }
    if exists|n: nat| n <= 255 && s == #[trigger] text::decimal(n) {
        let n = choose|n: nat| n <= 255 && s == #[trigger] text::decimal(n);
        text::law_decimal_reads_back(n);
        text::law_decimal_has_no_leading_zero(n);
        reveal_with_fuel(text::decimal, 4);
        assert(s.len() <= 3);
    }
}

/// Which names are server names, said of the parts between the dots: each has 1 to 63
/// ASCII letters, digits and hyphens, with no hyphen at either end, and the whole has 253
/// characters at most; but four parts that are numbers up to 255 are an address.
#[verifier::rlimit(60)]
pub proof fn law_server_name_by_its_parts(parts: Seq<Seq<char>>)
    requires
        parts.len() > 0,
        forall|k: int| 0 <= k < parts.len() ==> !(#[trigger] parts[k]).contains('.'),
    ensures
        is_server_name(text::joined(parts, seq!['.'])) <==> {
            &&& text::joined(parts, seq!['.']).len() <= 253
            &&& forall|k: int|
                0 <= k < parts.len() ==> 1 <= (#[trigger] parts[k]).len() <= 63
                    && parts[k].first() != '-' && parts[k].last() != '-'
            &&& forall|k: int, i: int|
                0 <= k < parts.len() && 0 <= i < parts[k].len() ==> ((#[trigger] parts[k][i])
                    == '-' || '0' <= parts[k][i] <= '9' || 'a' <= parts[k][i] <= 'z' || 'A'
                    <= parts[k][i] <= 'Z')
            &&& !(parts.len() == 4 && forall|k: int|
                0 <= k < 4 ==> exists|n: nat|
                    n <= 255 && (#[trigger] parts[k]) == #[trigger] text::decimal(n))
        },
{
    let s = text::joined(parts, seq!['.']);
    lemma_labels_of_joined(parts);
    assert forall|k: int| 0 <= k < parts.len() implies (is_octet(#[trigger] parts[k])
        <==> exists|n: nat| n <= 255 && parts[k] == #[trigger] text::decimal(n)) by {
        lemma_octet_is_decimal(parts[k]);
    }
    if is_server_name(s) {
        assert forall|k: int| 0 <= k < parts.len() implies is_label(#[trigger] parts[k]) by {
            assert(is_label(labels(s)[k]));
        }
    } else if s.len() <= 253 {
        if is_ipv4(s) {
            assert forall|k: int| 0 <= k < 4 implies is_octet(#[trigger] parts[k]) by {
                assert(is_octet(labels(s)[k]));
            }
        } else {
            let k = choose|k: int| 0 <= k < labels(s).len() && !is_label(#[trigger] labels(s)[k]);
            let p = parts[k];
            if 1 <= p.len() <= 63 && p.first() != '-' && p.last() != '-' {
                if forall|i: int|
                    0 <= i < p.len() ==> text::is_alphanumeric(#[trigger] p[i]) || p[i] == '-' {
                    assert(p[0] == p.first() && p[p.len() - 1] == p.last());
                }
            }
        }
    }
    if is_server_name(s) && parts.len() == 4 && (forall|k: int|
        0 <= k < 4 ==> exists|n: nat|
            n <= 255 && (#[trigger] parts[k]) == #[trigger] text::decimal(n)) {
        assert forall|k: int| 0 <= k < 4 implies is_octet(#[trigger] labels(s)[k]) by {
            assert(is_octet(parts[k]));
        }
    }
}

proof fn lemma_labels_of_joined(parts: Seq<Seq<char>>)
    requires
        parts.len() > 0,
        forall|k: int| 0 <= k < parts.len() ==> !(#[trigger] parts[k]).contains('.'),
    ensures
        labels(text::joined(parts, seq!['.'])) == parts,
{
    assert forall|k: int| 0 <= k < parts.len() implies text::free_of(
        #[trigger] parts[k],
        CharClass::Only('.'),
    ) by {
        assert forall|i: int| 0 <= i < parts[k].len() implies parts[k][i] != '.' by {
            if parts[k][i] == '.' {
                assert(parts[k].contains('.'));
            }
        }
    }
    text::law_join_then_split(parts, '.', CharClass::Only('.'));
}

/// No address in dotted decimal notation is a server name.
pub proof fn law_no_address_is_a_server_name(a: nat, b: nat, c: nat, d: nat)
    requires
        a <= 255,
        b <= 255,
        c <= 255,
        d <= 255,
    ensures
        !is_server_name(
            text::joined(
                seq![text::decimal(a), text::decimal(b), text::decimal(c), text::decimal(d)],
                seq!['.'],
            ),
        ),
{
    let parts = seq![text::decimal(a), text::decimal(b), text::decimal(c), text::decimal(d)];
    text::law_decimal_reads_back(a);
    text::law_decimal_reads_back(b);
    text::law_decimal_reads_back(c);
    text::law_decimal_reads_back(d);
    assert forall|k: int| 0 <= k < parts.len() implies !(#[trigger] parts[k]).contains('.') by {
        assert(k == 0 || k == 1 || k == 2 || k == 3);
        assert(text::all_digits(parts[k]));
        if parts[k].contains('.') {
            let i = choose|i: int| 0 <= i < parts[k].len() && parts[k][i] == '.';
            assert(text::is_digit(parts[k][i]));
        }
    }
    assert forall|k: int| 0 <= k < 4 implies exists|n: nat|
        n <= 255 && (#[trigger] parts[k]) == #[trigger] text::decimal(n) by {
        assert(k == 0 || k == 1 || k == 2 || k == 3);
    }
    law_server_name_by_its_parts(parts);
}

/// A list is refused for its first word that is no server name, and for no other; where
/// there is no such word it is not refused.
pub proof fn law_refused_for_the_first_bad_word(list: Seq<Seq<char>>, i: int)
    ensures
        first_invalid(list) is None <==> forall|k: int|
            0 <= k < list.len() ==> is_server_name(#[trigger] list[k]),
        0 <= i < list.len() && !is_server_name(list[i]) && (forall|k: int|
            0 <= k < i ==> is_server_name(#[trigger] list[k])) ==> first_invalid(list) == Some(
            list[i],
        ),
    decreases list.len(),
{
    if list.len() > 0 {
        let init = list.drop_last();
        law_refused_for_the_first_bad_word(init, i);
        assert(forall|k: int| 0 <= k < init.len() ==> #[trigger] init[k] == list[k]);
        if first_invalid(init) is None {
            assert forall|k: int| 0 <= k < init.len() implies is_server_name(
                #[trigger] list[k],
            ) by {
                assert(is_server_name(init[k]));
            }
            assert(list.last() == list[list.len() - 1]);
        } else {
            let k = choose|k: int| 0 <= k < init.len() && !is_server_name(#[trigger] init[k]);
            assert(!is_server_name(list[k]));
        }
    }
}

/// The names that are kept are the words without an earlier word equal up to case, in the
/// order of the list: `places` are the places of those words.
#[verifier::rlimit(60)]
pub proof fn law_first_spelling_is_kept(list: Seq<Seq<char>>) -> (places: Seq<int>)
    ensures
        places.len() == first_spellings(list).len(),
        forall|k: int|
            0 <= k < places.len() ==> 0 <= #[trigger] places[k] < list.len()
                && first_spellings(list)[k] == list[places[k]],
        forall|j: int, k: int|
            0 <= j < k < places.len() ==> #[trigger] places[j] < #[trigger] places[k],
        forall|i: int|
            0 <= i < list.len() ==> (#[trigger] places.contains(i) <==> forall|j: int|
                0 <= j < i ==> !text::same_ignoring_case(#[trigger] list[j], list[i])),
    decreases list.len(),
{
    if list.len() == 0 {
        Seq::empty()
    } else {
        let init = list.drop_last();
        let before = first_spellings(init);
        let n = init.len() as int;
        let first = law_first_spelling_is_kept(init);
        let fresh = !is_listed(before, list.last());
        let places = if fresh {
            first.push(n)
        } else {
            first
        };
        law_each_server_once(init);
        assert(fresh <==> forall|j: int|
            0 <= j < n ==> !text::same_ignoring_case(#[trigger] list[j], list[n])) by {
            if is_listed(before, list.last()) {
                let k = choose|k: int|
                    0 <= k < before.len() && text::same_ignoring_case(
                        #[trigger] before[k],
                        list.last(),
                    );
                assert(init.contains(before[k]));
                let j = choose|j: int| 0 <= j < init.len() && init[j] == before[k];
                assert(text::same_ignoring_case(list[j], list[n]));
            } else {
                assert forall|j: int| 0 <= j < n implies !text::same_ignoring_case(
                    #[trigger] list[j],
                    list[n],
                ) by {
                    assert(is_listed(before, init[j]));
                    let k = choose|k: int|
                        0 <= k < before.len() && text::same_ignoring_case(
                            #[trigger] before[k],
                            init[j],
                        );
                    assert(!text::same_ignoring_case(before[k], list.last()));
                }
            }
        }
        assert forall|i: int| 0 <= i < list.len() implies (#[trigger] places.contains(i)
            <==> forall|j: int|
            0 <= j < i ==> !text::same_ignoring_case(#[trigger] list[j], list[i])) by {
            if i < n {
                assert(list[i] == init[i]);
                assert(forall|j: int| 0 <= j < i ==> #[trigger] list[j] == init[j]);
                if first.contains(i) {
                    let k = choose|k: int| 0 <= k < first.len() && first[k] == i;
                    assert(places[k] == i);
                }
                if places.contains(i) {
                    let k = choose|k: int| 0 <= k < places.len() && places[k] == i;
                    assert(first[k] == i);
                }
                assert(first.contains(i) <==> forall|j: int|
                    0 <= j < i ==> !text::same_ignoring_case(#[trigger] init[j], init[i]));
            } else {
                if fresh {
                    assert(places[places.len() - 1] == n);
                }
                if places.contains(i) && !fresh {
                    let k = choose|k: int| 0 <= k < places.len() && places[k] == i;
                    assert(first[k] < init.len());
                }
            }
        }
        places
    }
}

/// A refusal shows the word that is refused, whole.
pub proof fn law_refusal_shows_the_word(word: Seq<char>)
    ensures
        text::is_substring(invalid_message(word), word),
        invalid_message(word) == "Servidor invalido: "@ + word
            + ". Usa nombres DNS, no IP (autenticacion Kerberos)."@,
{
    text::law_substring_is_a_middle(invalid_message(word), word);
}

/// A list is accepted exactly when it has a word and every word is a server name. Then the
/// names are words of the list, every word is among them up to case, and no two of them
/// are equal up to case.
#[verifier::rlimit(60)]
pub proof fn law_accepted_list(input: &str, r: Result<Vec<String>, String>)
    requires
        call_ensures(servers, (input,), r),
    ensures
        r is Ok <==> text::words(input@).len() > 0 && forall|k: int|
            0 <= k < text::words(input@).len() ==> is_server_name(
                #[trigger] text::words(input@)[k],
            ),
        r matches Ok(names) ==> {
            &&& forall|k: int|
                0 <= k < names@.len() ==> text::words(input@).contains((#[trigger] names@[k])@)
            &&& forall|i: int|
                0 <= i < text::words(input@).len() ==> exists|k: int|
                    0 <= k < names@.len() && text::same_ignoring_case(
                        (#[trigger] names@[k])@,
                        #[trigger] text::words(input@)[i],
                    )
            &&& forall|j: int, k: int|
                0 <= j < k < names@.len() ==> !text::same_ignoring_case(
                    (#[trigger] names@[j])@,
                    (#[trigger] names@[k])@,
                )
        },
{
    law_refused_for_the_first_bad_word(text::words(input@), 0);
    if r is Ok {
        lemma_kept_names(text::words(input@), r->Ok_0@);
    }
}

#[verifier::rlimit(60)]
proof fn lemma_kept_names(words: Seq<Seq<char>>, names: Seq<String>)
    requires
        text::texts(names) == first_spellings(words),
    ensures
        forall|k: int| 0 <= k < names.len() ==> words.contains((#[trigger] names[k])@),
        forall|i: int|
            0 <= i < words.len() ==> exists|k: int|
                0 <= k < names.len() && text::same_ignoring_case(
                    (#[trigger] names[k])@,
                    #[trigger] words[i],
                ),
        forall|j: int, k: int|
            0 <= j < k < names.len() ==> !text::same_ignoring_case(
                (#[trigger] names[j])@,
                (#[trigger] names[k])@,
            ),
{
    let kept = first_spellings(words);
    law_each_server_once(words);
    assert forall|k: int| 0 <= k < names.len() implies words.contains((#[trigger] names[k])@) by {
        assert(kept[k] == names[k]@);
    }
    assert forall|i: int| 0 <= i < words.len() implies exists|k: int|
        0 <= k < names.len() && text::same_ignoring_case(
            (#[trigger] names[k])@,
            #[trigger] words[i],
        ) by {
        assert(is_listed(kept, words[i]));
        let k = choose|k: int|
            0 <= k < kept.len() && text::same_ignoring_case(#[trigger] kept[k], words[i]);
        assert(kept[k] == names[k]@);
        assert(text::same_ignoring_case(names[k]@, words[i]));
    }
    assert forall|j: int, k: int| 0 <= j < k < names.len() implies !text::same_ignoring_case(
        (#[trigger] names[j])@,
        (#[trigger] names[k])@,
    ) by {
        assert(kept[j] == names[j]@ && kept[k] == names[k]@);
        assert(!text::same_ignoring_case(kept[j], kept[k]));
    }
}

/// A list that is refused tells its first bad word, or that it has no word.
pub proof fn law_refused_list(input: &str, i: int, r: Result<Vec<String>, String>)
    requires
        call_ensures(servers, (input,), r),
    ensures
        text::words(input@).len() == 0 ==> r is Err && r->Err_0@ == "Ingresa al menos un servidor."@,
        0 <= i < text::words(input@).len() && !is_server_name(text::words(input@)[i]) && (
        forall|k: int| 0 <= k < i ==> is_server_name(#[trigger] text::words(input@)[k])) ==> r is Err
            && r->Err_0@ == "Servidor invalido: "@ + text::words(input@)[i]
            + ". Usa nombres DNS, no IP (autenticacion Kerberos)."@,
{
    law_refused_for_the_first_bad_word(text::words(input@), i);
}

/// Whether a name is a server name, and whether it is an address, read off its parts.
#[verifier::rlimit(60)]
pub proof fn law_name_is_judged_by_its_parts(
    parts: Seq<Seq<char>>,
    s: &[char],
    named: bool,
    address: bool,
)
    requires
        parts.len() > 0,
        forall|k: int| 0 <= k < parts.len() ==> !(#[trigger] parts[k]).contains('.'),
        s@ == text::joined(parts, seq!['.']),
        call_ensures(server_name, (s,), named),
        call_ensures(ipv4, (s,), address),
    ensures
        address <==> parts.len() == 4 && forall|k: int|
            0 <= k < 4 ==> exists|n: nat|
                n <= 255 && (#[trigger] parts[k]) == #[trigger] text::decimal(n),
        named ==> !address,
        named ==> s@.len() <= 253,
        named <==> !address && s@.len() <= 253 && (forall|k: int|
            0 <= k < parts.len() ==> 1 <= (#[trigger] parts[k]).len() <= 63 && parts[k].first()
                != '-' && parts[k].last() != '-') && forall|k: int, i: int|
            0 <= k < parts.len() && 0 <= i < parts[k].len() ==> ((#[trigger] parts[k][i]) == '-'
                || '0' <= parts[k][i] <= '9' || 'a' <= parts[k][i] <= 'z' || 'A' <= parts[k][i]
                <= 'Z'),
{
    law_server_name_by_its_parts(parts);
    lemma_labels_of_joined(parts);
    assert forall|k: int| 0 <= k < parts.len() implies (is_octet(#[trigger] parts[k])
        <==> exists|n: nat| n <= 255 && parts[k] == #[trigger] text::decimal(n)) by {
        lemma_octet_is_decimal(parts[k]);
    }
}

/// The names of an accepted list are its words in order, each in the spelling that comes
/// first: `places` are their places in the list.
pub proof fn law_accepted_names_keep_their_order(
    input: &str,
    r: Result<Vec<String>, String>,
) -> (places: Seq<int>)
    requires
        r is Ok,
        call_ensures(servers, (input,), r),
    ensures
        places.len() == r->Ok_0@.len(),
        forall|k: int|
            0 <= k < places.len() ==> 0 <= #[trigger] places[k] < text::words(input@).len()
                && r->Ok_0@[k]@ == text::words(input@)[places[k]],
        forall|j: int, k: int|
            0 <= j < k < places.len() ==> #[trigger] places[j] < #[trigger] places[k],
        forall|i: int|
            0 <= i < text::words(input@).len() ==> (#[trigger] places.contains(i) <==> forall|
                j: int,
            |
                0 <= j < i ==> !text::same_ignoring_case(
                    #[trigger] text::words(input@)[j],
                    text::words(input@)[i],
                )),
{
    let words = text::words(input@);
    let names = r->Ok_0@;
    let places = law_first_spelling_is_kept(words);
    assert(text::texts(names) == first_spellings(words));
    assert forall|k: int| 0 <= k < places.len() implies 0 <= #[trigger] places[k] < words.len()
        && names[k]@ == words[places[k]] by {
        assert(text::texts(names)[k] == names[k]@);
    }
    places
}

} // verus!
