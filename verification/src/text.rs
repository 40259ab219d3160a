//! Text helpers: comparing, cutting and joining strings by their characters.
use vstd::prelude::*;

verus! {

/// Position of the first `c` in `s`, if `s` holds one.
pub open spec fn first_at(s: Seq<char>, c: char) -> Option<int>
    decreases s.len(),
{
    if s.len() == 0 {
        None
    } else if s[0] == c {
        Some(0int)
    } else {
        match first_at(s.skip(1), c) {
            Some(i) => Some(i + 1),
            None => None,
        }
    }
}

/// `i` is the first position of `c` in `s` exactly when `c` stands at `i` and nowhere before.
pub proof fn lemma_first_at(s: Seq<char>, c: char, i: int)
    requires
        0 <= i < s.len(),
        s[i] == c,
        forall|j: int| 0 <= j < i ==> s[j] != c,
    ensures
        first_at(s, c) == Some(i),
    decreases s.len(),
{
    if i > 0 {
        assert(s.skip(1)[i - 1] == c);
        assert forall|j: int| 0 <= j < i - 1 implies s.skip(1)[j] != c by {
            assert(s.skip(1)[j] == s[j + 1]);
        }
        lemma_first_at(s.skip(1), c, i - 1);
    }
}

/// Without a `c` in `s` there is no first position.
pub proof fn lemma_first_at_none(s: Seq<char>, c: char)
    requires
        !s.contains(c),
    ensures
        first_at(s, c) is None,
    decreases s.len(),
{
    if s.len() > 0 {
        assert(s[0] != c);
        assert forall|j: int| 0 <= j < s.skip(1).len() implies s.skip(1)[j] != c by {
            assert(s.skip(1)[j] == s[j + 1]);
        }
        lemma_first_at_none(s.skip(1), c);
    }
}

/// What `first_at` finds is a first position.
pub proof fn lemma_first_at_found(s: Seq<char>, c: char)
    ensures
        match first_at(s, c) {
            Some(i) => 0 <= i < s.len() && s[i] == c && forall|j: int| 0 <= j < i ==> s[j] != c,
            None => !s.contains(c),
        },
    decreases s.len(),
{
    if s.len() > 0 && s[0] != c {
        lemma_first_at_found(s.skip(1), c);
        assert(forall|j: int| 0 <= j < s.skip(1).len() ==> #[trigger] s.skip(1)[j] == s[j + 1]);
        match first_at(s.skip(1), c) {
            Some(i) => {
                assert forall|j: int| 0 <= j < i + 1 implies s[j] != c by {
                    if j > 0 {
                        assert(s.skip(1)[j - 1] == s[j]);
                    }
                }
            },
            None => {
                assert forall|j: int| 0 <= j < s.len() implies s[j] != c by {
                    if j > 0 {
                        assert(s.skip(1)[j - 1] == s[j]);
                        assert(s.skip(1).contains(s[j]));
                    }
                }
            },
        }
    }
}

/// `s` cut at its first `c`: what stands before it and what stands after it.
pub open spec fn split_at_first(s: Seq<char>, c: char) -> Option<(Seq<char>, Seq<char>)> {
    match first_at(s, c) {
        Some(i) => Some((s.take(i), s.skip(i + 1))),
        None => None,
    }
}

/// The characters of `s`.
pub fn to_chars(s: &str) -> (chars: Vec<char>)
    ensures
        chars@ == s@,
{
    let mut chars: Vec<char> = Vec::new();
    for c in it: s.chars()
        invariant
            chars@ == it.seq().take(it.index() as int),
            it.seq() == s@,
    {
        chars.push(c);
    }
    chars
}

/// Whether `s` begins with `prefix`.
pub open spec fn begins_with(s: Seq<char>, prefix: Seq<char>) -> bool {
    prefix.len() <= s.len() && s.take(prefix.len() as int) == prefix
}

/// Whether `s` ends with `suffix`.
pub open spec fn ends_with(s: Seq<char>, suffix: Seq<char>) -> bool {
    suffix.len() <= s.len() && s.skip(s.len() - suffix.len()) == suffix
}

/// Whether `part` stands in `s` at some position.
pub open spec fn holds_part(s: Seq<char>, part: Seq<char>) -> bool {
    exists|i: int| #[trigger] part_at(s, part, i)
}

/// Whether `part` stands in `s` from position `i` on.
pub open spec fn part_at(s: Seq<char>, part: Seq<char>, i: int) -> bool {
    0 <= i && i + part.len() <= s.len() && s.subrange(i, i + part.len()) == part
}

/// Whether `part` stands in `s` from position `at` on.
fn matches_at(s: &Vec<char>, part: &Vec<char>, at: usize) -> (found: bool)
    requires
        at + part@.len() <= s@.len(),
    ensures
        found == (s@.subrange(at as int, at + part@.len()) == part@),
{
    let n: usize = s.len();
    let mut i: usize = 0;
    while i < part.len()
        invariant
            i <= part@.len(),
            n == s@.len(),
            at + part@.len() <= n,
            forall|j: int| 0 <= j < i ==> s@[at + j] == part@[j],
        decreases part@.len() - i,
    {
        if s[at + i] != part[i] {
            proof {
                assert(s@.subrange(at as int, at + part@.len())[i as int] != part@[i as int]);
            }
            return false;
        }
        i = i + 1;
    }
    assert(s@.subrange(at as int, at + part@.len()) =~= part@);
    true
}

/// Whether two strings hold the same characters.
pub fn same_text(a: &str, b: &str) -> (same: bool)
    ensures
        same == (a@ == b@),
{
    a.to_owned() == b.to_owned()
}

/// What is left of `s` behind `prefix`, if `s` begins with it.
pub fn strip_prefix<'a>(s: &'a str, prefix: &str) -> (rest: Option<&'a str>)
    ensures
        rest is Some <==> begins_with(s@, prefix@),
        rest matches Some(r) ==> s@ == prefix@ + r@ && r@ == s@.skip(prefix@.len() as int),
{
    let chars = to_chars(s);
    let head = to_chars(prefix);
    if head.len() <= chars.len() && matches_at(&chars, &head, 0) {
        let rest = s.substring_char(head.len(), chars.len());
        proof {
            assert(s@.take(prefix@.len() as int) =~= s@.subrange(0, prefix@.len() as int));
            assert(prefix@ + rest@ =~= s@);
            assert(rest@ =~= s@.skip(prefix@.len() as int));
        }
        Some(rest)
    } else {
        proof {
            if prefix@.len() <= s@.len() {
                assert(s@.take(prefix@.len() as int) =~= s@.subrange(0, prefix@.len() as int));
            }
        }
        None
    }
}

/// What is left of `s` before `suffix`, if `s` ends with it.
pub fn strip_suffix<'a>(s: &'a str, suffix: &str) -> (rest: Option<&'a str>)
    ensures
        rest is Some <==> ends_with(s@, suffix@),
        rest matches Some(r) ==> s@ == r@ + suffix@ && r@ == s@.take(s@.len() - suffix@.len()),
{
    let chars = to_chars(s);
    let tail = to_chars(suffix);
    if tail.len() <= chars.len() && matches_at(&chars, &tail, chars.len() - tail.len()) {
        let rest = s.substring_char(0, chars.len() - tail.len());
        proof {
            let at = s@.len() - suffix@.len();
            assert(s@.skip(at) =~= s@.subrange(at, s@.len() as int));
            assert(rest@ + suffix@ =~= s@);
            assert(rest@ =~= s@.take(at));
        }
        Some(rest)
    } else {
        proof {
            if suffix@.len() <= s@.len() {
                let at = s@.len() - suffix@.len();
                assert(s@.skip(at) =~= s@.subrange(at, s@.len() as int));
            }
        }
        None
    }
}

/// Whether `s` begins with `prefix`.
pub fn starts_with(s: &str, prefix: &str) -> (yes: bool)
    ensures
        yes == begins_with(s@, prefix@),
{
    strip_prefix(s, prefix).is_some()
}

/// Whether `part` stands somewhere in `s`.
pub fn contains_text(s: &str, part: &str) -> (found: bool)
    ensures
        found == holds_part(s@, part@),
{
    let chars = to_chars(s);
    let needle = to_chars(part);
    if needle.len() > chars.len() {
        return false;
    }
    let last: usize = chars.len() - needle.len();
    let mut at: usize = 0;
    while at <= last
        invariant
            chars@ == s@,
            needle@ == part@,
            last + needle@.len() == chars@.len(),
            at <= last + 1,
            forall|i: int| 0 <= i < at ==> !part_at(s@, part@, i),
        decreases last + 1 - at,
    {
        if matches_at(&chars, &needle, at) {
            assert(part_at(s@, part@, at as int));
            return true;
        }
        if at == last {
            assert(!holds_part(s@, part@));
            return false;
        }
        at = at + 1;
    }
    false
}

/// Cuts `s` at its first `c`: what stands before it and what stands after it.
pub fn split_once(s: &str, c: char) -> (parts: Option<(String, String)>)
    ensures
        parts.deep_view() == split_at_first(s@, c),
{
    let chars = to_chars(s);
    let mut i: usize = 0;
    while i < chars.len()
        invariant
            chars@ == s@,
            i <= chars@.len(),
            forall|j: int| 0 <= j < i ==> chars@[j] != c,
        decreases chars@.len() - i,
    {
        if chars[i] == c {
            let head = s.substring_char(0, i).to_owned();
            let tail = s.substring_char(i + 1, chars.len()).to_owned();
            proof {
                lemma_first_at(s@, c, i as int);
                assert(head@ =~= s@.take(i as int));
                assert(tail@ =~= s@.skip(i + 1));
            }
            return Some((head, tail));
        }
        i = i + 1;
    }
    proof {
        lemma_first_at_none(s@, c);
    }
    None
}

/// `author` and `post` joined by a colon: the member that names a post in the indexes.
pub open spec fn post_key_of(author: Seq<char>, post: Seq<char>) -> Seq<char> {
    author + seq![':'] + post
}

/// The part of a post key that names the author: what stands before its first
/// colon, or all of it where there is none.
pub open spec fn author_of(key: Seq<char>) -> Seq<char> {
    match split_at_first(key, ':') {
        Some((author, _post)) => author,
        None => key,
    }
}

/// Joins the ids of an author and a post to the member that names the post in
/// the indexes.
pub fn post_key(author: &str, post: &str) -> (key: String)
    ensures
        key@ == post_key_of(author@, post@),
{
    let mut key = author.to_owned();
    key.append(":");
    key.append(post);
    proof {
        reveal_strlit(":");
        assert(":"@ =~= seq![':']);
    }
    key
}

/// The author that a post key names.
pub fn key_author(key: &str) -> (author: String)
    ensures
        author@ == author_of(key@),
{
    match split_once(key, ':') {
        Some((author, _post)) => author,
        None => key.to_owned(),
    }
}

/// A post key gives back the author it was made of, as long as that author's id
/// holds no colon.
pub proof fn lemma_author_of_post_key(author: Seq<char>, post: Seq<char>)
    requires
        !author.contains(':'),
    ensures
        author_of(post_key_of(author, post)) == author,
        split_at_first(post_key_of(author, post), ':') == Some((author, post)),
{
    let key = post_key_of(author, post);
    let n = author.len() as int;
    assert(key[n] == ':');
    assert forall|j: int| 0 <= j < n implies key[j] != ':' by {
        assert(key[j] == author[j]);
    }
    lemma_first_at(key, ':', n);
    assert(key.take(n) =~= author);
    assert(key.skip(n + 1) =~= post);
}

/// A key that holds a colon is the post key of its two halves.
pub proof fn lemma_post_key_of_halves(key: Seq<char>)
    ensures
        match split_at_first(key, ':') {
            Some((author, post)) => post_key_of(author, post) == key && !author.contains(':'),
            None => !key.contains(':'),
        },
{
    lemma_first_at_found(key, ':');
    match first_at(key, ':') {
        Some(i) => {
            assert(post_key_of(key.take(i), key.skip(i + 1)) =~= key);
        },
        None => {},
    }
}

/// A copy of a list of strings.
pub fn copy_texts(texts: &Vec<String>) -> (copy: Vec<String>)
    ensures
        copy.deep_view() == texts.deep_view(),
{
    let mut copy: Vec<String> = Vec::new();
    let mut i: usize = 0;
    while i < texts.len()
        invariant
            i <= texts@.len(),
            copy@.len() == i,
            forall|j: int| 0 <= j < i ==> (#[trigger] copy@[j])@ == texts@[j]@,
        decreases texts@.len() - i,
    {
        copy.push(texts[i].clone());
        i = i + 1;
    }
    assert(copy.deep_view() =~= texts.deep_view());
    copy
}

/// Whether Unicode counts a character as white space.
pub open spec fn white_space(c: char) -> bool {
    let n = c as u32;
    ||| 0x09 <= n <= 0x0d
    ||| n == 0x20
    ||| n == 0x85
    ||| n == 0xa0
    ||| n == 0x1680
    ||| 0x2000 <= n <= 0x200a
    ||| n == 0x2028
    ||| n == 0x2029
    ||| n == 0x202f
    ||| n == 0x205f
    ||| n == 0x3000
}

/// Whether Unicode counts a character as white space.
pub fn is_white_space(c: char) -> (yes: bool)
    ensures
        yes == white_space(c),
{
    let n: u32 = c as u32;
    (0x09 <= n && n <= 0x0d) || n == 0x20 || n == 0x85 || n == 0xa0 || n == 0x1680 || (0x2000 <= n
        && n <= 0x200a) || n == 0x2028 || n == 0x2029 || n == 0x202f || n == 0x205f || n == 0x3000
}

/// `s` without the white space it begins with.
pub open spec fn trimmed_start(s: Seq<char>) -> Seq<char>
    decreases s.len(),
{
    if s.len() > 0 && white_space(s[0]) {
        trimmed_start(s.skip(1))
    } else {
        s
    }
}

/// `s` without the white space it ends with.
pub open spec fn trimmed_end(s: Seq<char>) -> Seq<char>
    decreases s.len(),
{
    if s.len() > 0 && white_space(s.last()) {
        trimmed_end(s.drop_last())
    } else {
        s
    }
}

/// `s` without the white space around it.
pub open spec fn trimmed(s: Seq<char>) -> Seq<char> {
    trimmed_end(trimmed_start(s))
}

/// How many words `s` holds, parted by white space.
pub open spec fn terms_in(s: Seq<char>) -> nat
    decreases s.len(),
{
    if s.len() == 0 {
        0
    } else {
        terms_in(s.drop_last()) + if !white_space(s.last()) && (s.len() == 1 || white_space(
            s[s.len() - 2],
        )) {
            1nat
        } else {
            0
        }
    }
}

/// Counts the words of `s`.
pub fn count_terms(s: &str) -> (terms: usize)
    ensures
        terms == terms_in(s@),
{
    let chars = to_chars(s);
    let mut terms: usize = 0;
    let mut inside = false;
    let mut i: usize = 0;
    assert(s@.take(0) =~= Seq::empty());
    while i < chars.len()
        invariant
            chars@ == s@,
            i <= chars@.len(),
            terms <= i,
            terms == terms_in(s@.take(i as int)),
            inside == (i > 0 && !white_space(s@[i - 1])),
        decreases chars@.len() - i,
    {
        let blank = is_white_space(chars[i]);
        assert(s@.take(i + 1).drop_last() =~= s@.take(i as int));
        if !blank && !inside {
            terms = terms + 1;
        }
        inside = !blank;
        i = i + 1;
    }
    assert(s@.take(i as int) =~= s@);
    terms
}

/// Words are parted by white space: a text with white space in it has the words
/// of its two sides together. A text without white space is one word, and a blank
/// one has none.
pub proof fn law_words_are_parted_by_white_space(a: Seq<char>, blank: char, b: Seq<char>)
    requires
        white_space(blank),
    ensures
        terms_in(a + seq![blank] + b) == terms_in(a) + terms_in(b),
        b.len() > 0 && (forall|i: int| 0 <= i < b.len() ==> !white_space(#[trigger] b[i]))
            ==> terms_in(b) == 1,
        (forall|i: int| 0 <= i < b.len() ==> white_space(#[trigger] b[i])) ==> terms_in(b) == 0,
    decreases b.len(),
{
    let s = a + seq![blank] + b;
    if b.len() == 0 {
        assert(s.drop_last() =~= a);
    } else {
        let fewer = b.drop_last();
        law_words_are_parted_by_white_space(a, blank, fewer);
        assert(s.drop_last() =~= a + seq![blank] + fewer);
        assert(s.last() == b.last());
        assert(forall|i: int| 0 <= i < fewer.len() ==> #[trigger] fewer[i] == b[i]);
        if b.len() > 1 {
            assert(s[s.len() - 2] == b[b.len() - 2]);
        } else {
            assert(s[s.len() - 2] == blank);
            assert(fewer =~= Seq::empty());
        }
    }
}

/// A trimmed text neither begins nor ends with white space, and is the text
/// without white space on either side.
pub proof fn law_a_trimmed_text_has_no_white_space_around_it(s: Seq<char>) -> (cut: (
    Seq<char>,
    Seq<char>,
))
    ensures
        s == cut.0 + trimmed(s) + cut.1,
        forall|i: int| 0 <= i < cut.0.len() ==> white_space(#[trigger] cut.0[i]),
        forall|i: int| 0 <= i < cut.1.len() ==> white_space(#[trigger] cut.1[i]),
        trimmed(s).len() > 0 ==> !white_space(trimmed(s)[0]) && !white_space(trimmed(s).last()),
{
    let front = lemma_trimmed_start(s);
    let rest = trimmed_start(s);
    let back = lemma_trimmed_end(rest);
    assert(s =~= front + trimmed(s) + back);
    if trimmed(s).len() > 0 {
        assert(trimmed(s)[0] == rest[0]);
    }
    (front, back)
}

proof fn lemma_trimmed_start(s: Seq<char>) -> (front: Seq<char>)
    ensures
        s == front + trimmed_start(s),
        forall|i: int| 0 <= i < front.len() ==> white_space(#[trigger] front[i]),
        trimmed_start(s).len() > 0 ==> !white_space(trimmed_start(s)[0]),
    decreases s.len(),
{
    if s.len() > 0 && white_space(s[0]) {
        let rest = lemma_trimmed_start(s.skip(1));
        let front = seq![s[0]] + rest;
        assert(s =~= seq![s[0]] + s.skip(1));
        assert(s =~= front + trimmed_start(s));
        assert forall|i: int| 0 <= i < front.len() implies white_space(#[trigger] front[i]) by {
            if i > 0 {
                assert(front[i] == rest[i - 1]);
            }
        }
        front
    } else {
        assert(s =~= Seq::empty() + s);
        Seq::empty()
    }
}

proof fn lemma_trimmed_end(s: Seq<char>) -> (back: Seq<char>)
    ensures
        s == trimmed_end(s) + back,
        forall|i: int| 0 <= i < back.len() ==> white_space(#[trigger] back[i]),
        trimmed_end(s).len() > 0 ==> !white_space(trimmed_end(s).last()),
    decreases s.len(),
{
    if s.len() > 0 && white_space(s.last()) {
        let rest = lemma_trimmed_end(s.drop_last());
        let back = rest.push(s.last());
        assert(s =~= s.drop_last().push(s.last()));
        assert(s =~= trimmed_end(s) + back);
        back
    } else {
        assert(s =~= s + Seq::empty());
        Seq::empty()
    }
}

/// A post key is told apart by its author and its post, as long as the author's
/// id holds no colon: no two posts share one.
pub proof fn law_no_two_posts_share_a_key(
    a: Seq<char>,
    b: Seq<char>,
    first: Seq<char>,
    second: Seq<char>,
)
    requires
        !a.contains(':'),
        !b.contains(':'),
        post_key_of(a, first) == post_key_of(b, second),
    ensures
        a == b,
        first == second,
{
    lemma_author_of_post_key(a, first);
    lemma_author_of_post_key(b, second);
}

} // verus!
