//! Text, taken as a sequence of characters.
//!
//! Paths, identifiers and queries are all text here, and every rule about them
//! is stated over the characters they hold. The operations mean what the
//! methods of the same names on `str` mean.

use vstd::prelude::*;

verus! {

/// Text as the contracts speak of it.
pub type Text = Seq<char>;

/// `part` stands in `s` at position `i`.
pub open spec fn occurs_at(s: Text, part: Text, i: int) -> bool {
    0 <= i && i + part.len() <= s.len() && s.subrange(i, i + part.len()) == part
}

pub open spec fn has_prefix(s: Text, part: Text) -> bool {
    occurs_at(s, part, 0)
}

pub open spec fn has_suffix(s: Text, part: Text) -> bool {
    occurs_at(s, part, s.len() - part.len())
}

pub open spec fn has_part(s: Text, part: Text) -> bool {
    exists|i: int| occurs_at(s, part, i)
}

/// The characters of a string.
pub fn to_chars(s: &str) -> (out: Vec<char>)
    ensures
        out@ == s@,
{
    let mut out: Vec<char> = Vec::new();
    for c in it: s.chars()
        invariant
            out@ == it.seq().take(it.index() as int),
            it.seq() == s@,
    {
        out.push(c);
    }
    out
}

/// Calls `String::from_iter` on the characters: a string that holds them in
/// order.
#[verifier::external_body]
pub(crate) fn from_chars(chars: &[char]) -> (s: String)
    ensures
        s@ == chars@,
{
    String::from_iter(chars)
}

pub fn empty() -> (s: String)
    ensures
        s@ == Seq::<char>::empty(),
{
    let chars: Vec<char> = Vec::new();
    from_chars(chars.as_slice())
}

pub fn same(a: &str, b: &str) -> (r: bool)
    ensures
        r == (a@ == b@),
{
    a.to_owned() == b.to_owned()
}

pub fn is_empty(s: &str) -> (r: bool)
    ensures
        r == (s@.len() == 0),
{
    to_chars(s).len() == 0
}

/// Whether a list has a text.
pub fn lists(list: &Vec<String>, s: &str) -> (r: bool)
    ensures
        r == list.deep_view().contains(s@),
{
    let mut i: usize = 0;
    while i < list.len()
        invariant
            i <= list.len(),
            forall|k: int| 0 <= k < i ==> list.deep_view()[k] != s@,
        decreases list.len() - i,
    {
        if same(list[i].as_str(), s) {
            assert(list.deep_view()[i as int] == s@);
            return true;
        }
        i += 1;
    }
    false
}

// --- searching ---------------------------------------------------------------

pub(crate) fn stands_at(s: &Vec<char>, part: &Vec<char>, at: usize) -> (r: bool)
    ensures
        r == occurs_at(s@, part@, at as int),
{
    if part.len() > s.len() || at > s.len() - part.len() {
        return false;
    }
    let mut i: usize = 0;
    while i < part.len()
        invariant
            i <= part.len(),
            at + part.len() <= s.len(),
            forall|j: int| 0 <= j < i ==> s@[at + j] == part@[j],
        decreases part.len() - i,
    {
        if s[at + i] != part[i] {
            assert(s@.subrange(at as int, at + part@.len())[i as int] != part@[i as int]);
            return false;
        }
        i += 1;
    }
    assert(s@.subrange(at as int, at + part@.len()) =~= part@);
    true
}

pub fn starts_with(s: &str, part: &str) -> (r: bool)
    ensures
        r == has_prefix(s@, part@),
{
    stands_at(&to_chars(s), &to_chars(part), 0)
}

pub fn ends_with(s: &str, part: &str) -> (r: bool)
    ensures
        r == has_suffix(s@, part@),
{
    let chars = to_chars(s);
    let tail = to_chars(part);
    if tail.len() > chars.len() {
        return false;
    }
    stands_at(&chars, &tail, chars.len() - tail.len())
}

/// The first position at or after `from` where `part` stands.
pub open spec fn find_from(s: Text, part: Text, from: int) -> Option<int>
    decreases s.len() - from + 1,
{
    if from + part.len() > s.len() {
        None
    } else if occurs_at(s, part, from) {
        Some(from)
    } else {
        find_from(s, part, from + 1)
    }
}

pub open spec fn find(s: Text, part: Text) -> Option<int> {
    find_from(s, part, 0)
}

/// The last position at or before `from` where `part` stands.
pub open spec fn rfind_from(s: Text, part: Text, from: int) -> Option<int>
    decreases from + 1,
{
    if from < 0 {
        None
    } else if occurs_at(s, part, from) {
        Some(from)
    } else {
        rfind_from(s, part, from - 1)
    }
}

pub open spec fn rfind(s: Text, part: Text) -> Option<int> {
    rfind_from(s, part, s.len() - part.len())
}

pub proof fn lemma_find_from(s: Text, part: Text, from: int)
    requires
        0 <= from,
    ensures
        match find_from(s, part, from) {
            Some(i) => from <= i && occurs_at(s, part, i) && (forall|j: int|
                from <= j < i ==> !occurs_at(s, part, j)),
            None => forall|j: int| from <= j ==> !occurs_at(s, part, j),
        },
    decreases s.len() - from + 1,
{
    if from + part.len() <= s.len() && !occurs_at(s, part, from) {
        lemma_find_from(s, part, from + 1);
    }
}

pub proof fn lemma_rfind_from(s: Text, part: Text, from: int)
    ensures
        match rfind_from(s, part, from) {
            Some(i) => i <= from && occurs_at(s, part, i) && (forall|j: int|
                i < j <= from ==> !occurs_at(s, part, j)),
            None => forall|j: int| j <= from ==> !occurs_at(s, part, j),
        },
    decreases from + 1,
{
    if from >= 0 && !occurs_at(s, part, from) {
        lemma_rfind_from(s, part, from - 1);
    }
}

pub(crate) fn find_chars(s: &Vec<char>, part: &Vec<char>, from: usize) -> (r: Option<usize>)
    requires
        from <= s.len(),
    ensures
        match r {
            Some(i) => find_from(s@, part@, from as int) == Some(i as int) && occurs_at(
                s@,
                part@,
                i as int,
            ) && from <= i,
            None => find_from(s@, part@, from as int) is None,
        },
{
    let mut at: usize = from;
    while part.len() <= s.len() && at <= s.len() - part.len()
        invariant
            from <= at <= s.len() + 1,
            find_from(s@, part@, from as int) == find_from(s@, part@, at as int),
        decreases s.len() + 1 - at,
    {
        if stands_at(s, part, at) {
            return Some(at);
        }
        assert(part@.len() == 0 ==> s@.subrange(at as int, at as int) =~= part@);
        at += 1;
    }
    None
}

pub fn contains(s: &str, part: &str) -> (r: bool)
    ensures
        r == has_part(s@, part@),
{
    let chars = to_chars(s);
    let inner = to_chars(part);
    proof {
        lemma_find_from(s@, part@, 0);
    }
    match find_chars(&chars, &inner, 0) {
        Some(_) => true,
        None => {
            assert forall|i: int| !occurs_at(s@, part@, i) by {
                if i < 0 {
                }
            }
            false
        },
    }
}

// --- cutting -----------------------------------------------------------------

pub(crate) fn slice(chars: &Vec<char>, from: usize, to: usize) -> (out: String)
    requires
        from <= to <= chars.len(),
    ensures
        out@ == chars@.subrange(from as int, to as int),
{
    let mut out: Vec<char> = Vec::new();
    let mut i: usize = from;
    while i < to
        invariant
            from <= i <= to <= chars.len(),
            out@ == chars@.subrange(from as int, i as int),
        decreases to - i,
    {
        out.push(chars[i]);
        assert(chars@.subrange(from as int, i + 1) =~= chars@.subrange(
            from as int,
            i as int,
        ).push(chars@[i as int]));
        i += 1;
    }
    from_chars(out.as_slice())
}

pub open spec fn without_prefix(s: Text, part: Text) -> Option<Text> {
    if has_prefix(s, part) {
        Some(s.skip(part.len() as int))
    } else {
        None
    }
}

pub fn strip_prefix(s: &str, part: &str) -> (r: Option<String>)
    ensures
        r.deep_view() == without_prefix(s@, part@),
{
    let chars = to_chars(s);
    let head = to_chars(part);
    if stands_at(&chars, &head, 0) {
        Some(slice(&chars, head.len(), chars.len()))
    } else {
        None
    }
}

pub open spec fn without_suffix(s: Text, part: Text) -> Option<Text> {
    if has_suffix(s, part) {
        Some(s.take(s.len() - part.len()))
    } else {
        None
    }
}

pub fn strip_suffix(s: &str, part: &str) -> (r: Option<String>)
    ensures
        r.deep_view() == without_suffix(s@, part@),
{
    let chars = to_chars(s);
    let tail = to_chars(part);
    if tail.len() <= chars.len() && stands_at(&chars, &tail, chars.len() - tail.len()) {
        Some(slice(&chars, 0, chars.len() - tail.len()))
    } else {
        None
    }
}

/// What stands before and after the first `sep`.
pub open spec fn cut(s: Text, sep: Text) -> Option<(Text, Text)> {
    match find(s, sep) {
        Some(i) => Some((s.take(i), s.skip(i + sep.len()))),
        None => None,
    }
}

pub fn split_once(s: &str, sep: &str) -> (r: Option<(String, String)>)
    ensures
        r.deep_view() == cut(s@, sep@),
{
    let chars = to_chars(s);
    let mark = to_chars(sep);
    let end: usize = chars.len();
    match find_chars(&chars, &mark, 0) {
        Some(i) => Some((slice(&chars, 0, i), slice(&chars, i + mark.len(), end))),
        None => None,
    }
}

/// What stands before and after the last `sep`.
pub open spec fn cut_last(s: Text, sep: Text) -> Option<(Text, Text)> {
    match rfind(s, sep) {
        Some(i) => Some((s.take(i), s.skip(i + sep.len()))),
        None => None,
    }
}

pub fn rsplit_once(s: &str, sep: &str) -> (r: Option<(String, String)>)
    ensures
        r.deep_view() == cut_last(s@, sep@),
{
    let chars = to_chars(s);
    let mark = to_chars(sep);
    if mark.len() > chars.len() {
        return None;
    }
    let mut at: usize = chars.len() - mark.len();
    loop
        invariant
            at + mark.len() <= chars.len(),
            rfind(chars@, mark@) == rfind_from(chars@, mark@, at as int),
            chars@ == s@,
            mark@ == sep@,
        decreases at,
    {
        if stands_at(&chars, &mark, at) {
            return Some((slice(&chars, 0, at), slice(&chars, at + mark.len(), chars.len())));
        }
        if at == 0 {
            assert(rfind_from(chars@, mark@, -1) is None);
            return None;
        }
        at = at - 1;
    }
}

/// The part after the last `sep`, or all of it.
pub open spec fn tail_after(s: Text, sep: Text) -> Text {
    match cut_last(s, sep) {
        Some((_, tail)) => tail,
        None => s,
    }
}

pub fn after_last(s: &str, sep: &str) -> (r: String)
    ensures
        r@ == tail_after(s@, sep@),
{
    match rsplit_once(s, sep) {
        Some((_, tail)) => tail,
        None => s.to_owned(),
    }
}

/// The part before the first `sep`, or all of it.
pub open spec fn head_before(s: Text, sep: Text) -> Text {
    match cut(s, sep) {
        Some((head, _)) => head,
        None => s,
    }
}

pub fn before_first(s: &str, sep: &str) -> (r: String)
    ensures
        r@ == head_before(s@, sep@),
{
    match split_once(s, sep) {
        Some((head, _)) => head,
        None => s.to_owned(),
    }
}

/// The pieces between the separators.
pub open spec fn pieces(s: Text, sep: Text) -> Seq<Text>
    recommends
        sep.len() > 0,
    decreases s.len(),
{
    match find(s, sep) {
        Some(i) if 0 <= i && i + sep.len() <= s.len() && sep.len() > 0 => seq![s.take(i)] + pieces(
            s.skip(i + sep.len()),
            sep,
        ),
        _ => seq![s],
    }
}

/// There is always a piece.
pub proof fn lemma_pieces(s: Text, sep: Text)
    ensures
        pieces(s, sep).len() > 0,
{
}

pub fn split(s: &str, sep: &str) -> (out: Vec<String>)
    requires
        sep@.len() > 0,
    ensures
        out.deep_view() == pieces(s@, sep@),
{
    let mut out: Vec<String> = Vec::new();
    let mark = to_chars(sep);
    let mut rest = to_chars(s);
    loop
        invariant
            mark@ == sep@,
            mark@.len() > 0,
            pieces(s@, sep@) == out.deep_view() + pieces(rest@, sep@),
        decreases rest.len(),
    {
        match find_chars(&rest, &mark, 0) {
            Some(i) => {
                let head = slice(&rest, 0, i);
                let tail = to_chars(slice(&rest, i + mark.len(), rest.len()).as_str());
                let ghost before = out.deep_view();
                push(&mut out, head);
                assert(out.deep_view() + pieces(tail@, sep@) =~= before + pieces(rest@, sep@));
                rest = tail;
            },
            None => {
                let last = from_chars(rest.as_slice());
                push(&mut out, last);
                return out;
            },
        }
    }
}

/// The text without the carriage return that ends it, when one does.
pub open spec fn chomp(s: Text) -> Text {
    if s.len() > 0 && s.last() == '\r' {
        s.drop_last()
    } else {
        s
    }
}

/// The lines of a text. A line ends at a line feed or at a carriage return and
/// a line feed, and a text that ends in one has no empty line after it.
pub open spec fn lines_of(s: Text) -> Seq<Text>
    decreases s.len(),
{
    if s.len() == 0 {
        seq![]
    } else {
        match find(s, seq!['\n']) {
            Some(i) if 0 <= i < s.len() => seq![chomp(s.take(i))] + lines_of(s.skip(i + 1)),
            _ => seq![s],
        }
    }
}

pub fn lines(s: &str) -> (out: Vec<String>)
    ensures
        out.deep_view() == lines_of(s@),
{
    let mut out: Vec<String> = Vec::new();
    let mut mark: Vec<char> = Vec::new();
    mark.push('\n');
    assert(mark@ =~= seq!['\n']);
    let chars = to_chars(s);
    let mut at: usize = 0;
    assert(chars@.skip(0) =~= chars@);
    while at < chars.len()
        invariant
            at <= chars.len(),
            mark@ == seq!['\n'],
            chars@ == s@,
            lines_of(s@) == out.deep_view() + lines_of(chars@.skip(at as int)),
        decreases chars.len() - at,
    {
        let ghost rest = chars@.skip(at as int);
        let ghost before = out.deep_view();
        proof {
            lemma_find_skip(chars@, seq!['\n'], at as int, 0);
        }
        match find_chars(&chars, &mark, at) {
            Some(i) => {
                let mut end: usize = i;
                if end > at && chars[end - 1] == '\r' {
                    end = end - 1;
                }
                let line = slice(&chars, at, end);
                assert(rest.take(i - at) =~= chars@.subrange(at as int, i as int));
                assert(line@ =~= chomp(rest.take(i - at)));
                push(&mut out, line);
                assert(rest.skip(i - at + 1) =~= chars@.skip(i + 1));
                assert(out.deep_view() + lines_of(chars@.skip(i + 1)) =~= before + lines_of(rest));
                at = i + 1;
            },
            None => {
                let line = slice(&chars, at, chars.len());
                assert(line@ =~= rest);
                push(&mut out, line);
                assert(out.deep_view() =~= before + lines_of(rest));
                return out;
            },
        }
    }
    assert(out.deep_view() =~= out.deep_view() + lines_of(chars@.skip(at as int)));
    out
}

/// Searching a tail is searching the whole from where the tail begins.
pub proof fn lemma_find_skip(s: Text, part: Text, at: int, from: int)
    requires
        0 <= at <= s.len(),
        0 <= from,
    ensures
        find_from(s.skip(at), part, from) == (match find_from(s, part, at + from) {
            Some(i) => Some(i - at),
            None => None::<int>,
        }),
    decreases s.len() - at - from + 1,
{
    if at + from + part.len() <= s.len() {
        assert(s.skip(at).subrange(from, from + part.len()) =~= s.subrange(
            at + from,
            at + from + part.len(),
        ));
        if !occurs_at(s, part, at + from) {
            lemma_find_skip(s, part, at, from + 1);
        }
    }
}

// --- trimming ----------------------------------------------------------------

/// The characters with the Unicode property `White_Space`.
pub open spec fn is_space(c: char) -> bool {
    let n = c as u32;
    ||| 0x9 <= n <= 0xd
    ||| n == 0x20
    ||| n == 0x85
    ||| n == 0xa0
    ||| n == 0x1680
    ||| 0x2000 <= n <= 0x200a
    ||| n == 0x2028
    ||| n == 0x2029
    ||| n == 0x202f
    ||| n == 0x205f
    ||| n == 0x3000
}

pub fn is_whitespace(c: char) -> (r: bool)
    ensures
        r == is_space(c),
{
    let n: u32 = c as u32;
    (0x9 <= n && n <= 0xd) || n == 0x20 || n == 0x85 || n == 0xa0 || n == 0x1680 || (0x2000 <= n
        && n <= 0x200a) || n == 0x2028 || n == 0x2029 || n == 0x202f || n == 0x205f || n == 0x3000
}

pub open spec fn trimmed_start(s: Text) -> Text
    decreases s.len(),
{
    if s.len() > 0 && is_space(s[0]) {
        trimmed_start(s.skip(1))
    } else {
        s
    }
}

pub open spec fn trimmed_end(s: Text) -> Text
    decreases s.len(),
{
    if s.len() > 0 && is_space(s.last()) {
        trimmed_end(s.drop_last())
    } else {
        s
    }
}

pub open spec fn trimmed(s: Text) -> Text {
    trimmed_end(trimmed_start(s))
}

/// What is left of a text without its leading space is its end.
pub proof fn lemma_trimmed_start(s: Text)
    ensures
        trimmed_start(s).len() <= s.len(),
        s.skip(s.len() - trimmed_start(s).len()) == trimmed_start(s),
    decreases s.len(),
{
    if s.len() > 0 && is_space(s[0]) {
        lemma_trimmed_start(s.skip(1));
        let n = s.len() - trimmed_start(s).len();
        assert(s.skip(1).skip(n - 1) =~= s.skip(n));
    } else {
        assert(s.skip(0) =~= s);
    }
}

pub fn trim_start(s: &str) -> (out: String)
    ensures
        out@ == trimmed_start(s@),
{
    let chars = to_chars(s);
    let mut at: usize = 0;
    assert(chars@.skip(0) =~= chars@);
    while at < chars.len() && is_whitespace(chars[at])
        invariant
            at <= chars.len(),
            trimmed_start(chars@) == trimmed_start(chars@.skip(at as int)),
        decreases chars.len() - at,
    {
        assert(chars@.skip(at as int).skip(1) =~= chars@.skip(at + 1));
        at += 1;
    }
    slice(&chars, at, chars.len())
}

pub fn trim_end(s: &str) -> (out: String)
    ensures
        out@ == trimmed_end(s@),
{
    let chars = to_chars(s);
    let mut end: usize = chars.len();
    assert(chars@.take(end as int) =~= chars@);
    while end > 0 && is_whitespace(chars[end - 1])
        invariant
            end <= chars.len(),
            trimmed_end(chars@) == trimmed_end(chars@.take(end as int)),
        decreases end,
    {
        assert(chars@.take(end as int).drop_last() =~= chars@.take(end - 1));
        end = end - 1;
    }
    slice(&chars, 0, end)
}

pub fn trim(s: &str) -> (out: String)
    ensures
        out@ == trimmed(s@),
{
    trim_end(trim_start(s).as_str())
}

/// How long the word is that a text begins with.
pub open spec fn word_end(s: Text) -> nat
    decreases s.len(),
{
    if s.len() == 0 || is_space(s[0]) {
        0
    } else {
        1 + word_end(s.skip(1))
    }
}

/// The words of a text: what stands between its spaces.
pub open spec fn words_of(s: Text) -> Seq<Text>
    decreases s.len(),
{
    if s.len() == 0 {
        seq![]
    } else if is_space(s[0]) {
        words_of(s.skip(1))
    } else if 0 < word_end(s) <= s.len() {
        seq![s.take(word_end(s) as int)] + words_of(s.skip(word_end(s) as int))
    } else {
        seq![s]
    }
}

proof fn lemma_word_end(s: Text, n: int)
    requires
        0 <= n <= s.len(),
        forall|i: int| 0 <= i < n ==> !is_space(#[trigger] s[i]),
        n == s.len() || is_space(s[n]),
    ensures
        word_end(s) == n,
    decreases s.len(),
{
    if n > 0 {
        lemma_word_end(s.skip(1), n - 1);
    }
}

pub fn words(s: &str) -> (out: Vec<String>)
    ensures
        out.deep_view() == words_of(s@),
{
    let chars = to_chars(s);
    let mut out: Vec<String> = Vec::new();
    let mut at: usize = 0;
    assert(chars@.skip(0) =~= chars@);
    assert(out.deep_view() + words_of(chars@) =~= words_of(chars@));
    while at < chars.len()
        invariant
            at <= chars.len(),
            chars@ == s@,
            words_of(s@) == out.deep_view() + words_of(chars@.skip(at as int)),
        decreases chars.len() - at,
    {
        let ghost rest = chars@.skip(at as int);
        let ghost before = out.deep_view();
        if is_whitespace(chars[at]) {
            assert(rest.skip(1) =~= chars@.skip(at + 1));
            at += 1;
        } else {
            let mut end: usize = at;
            while end < chars.len() && !is_whitespace(chars[end])
                invariant
                    at <= end <= chars.len(),
                    forall|i: int| at <= i < end ==> !is_space(#[trigger] chars@[i]),
                decreases chars.len() - end,
            {
                end += 1;
            }
            proof {
                assert forall|i: int| 0 <= i < end - at implies !is_space(#[trigger] rest[i]) by {
                    assert(rest[i] == chars@[at + i]);
                }
                lemma_word_end(rest, end - at);
                assert(rest.take(end - at) =~= chars@.subrange(at as int, end as int));
                assert(rest.skip(end - at) =~= chars@.skip(end as int));
            }
            push(&mut out, slice(&chars, at, end));
            assert(out.deep_view() + words_of(chars@.skip(end as int)) =~= before + words_of(rest));
            at = end;
        }
    }
    assert(out.deep_view() =~= out.deep_view() + words_of(chars@.skip(at as int)));
    out
}

/// The text after every leading copy of `part`.
pub open spec fn shorn_start(s: Text, part: Text) -> Text
    decreases s.len(),
{
    if part.len() > 0 && has_prefix(s, part) {
        shorn_start(s.skip(part.len() as int), part)
    } else {
        s
    }
}

pub fn trim_start_matches(s: &str, part: &str) -> (out: String)
    ensures
        out@ == shorn_start(s@, part@),
{
    let chars = to_chars(s);
    let head = to_chars(part);
    if head.len() == 0 {
        return s.to_owned();
    }
    let mut at: usize = 0;
    assert(chars@.skip(0) =~= chars@);
    while stands_at(&chars, &head, at)
        invariant
            at <= chars.len(),
            head.len() > 0,
            shorn_start(chars@, head@) == shorn_start(chars@.skip(at as int), head@),
        decreases chars.len() - at,
    {
        assert(chars@.skip(at as int).subrange(0, head@.len() as int) =~= chars@.subrange(
            at as int,
            at + head@.len(),
        ));
        assert(chars@.skip(at as int).skip(head@.len() as int) =~= chars@.skip(at + head@.len()));
        at += head.len();
    }
    assert(at + head@.len() <= chars@.len() ==> chars@.skip(at as int).subrange(
        0,
        head@.len() as int,
    ) =~= chars@.subrange(at as int, at + head@.len()));
    slice(&chars, at, chars.len())
}

/// The text before every trailing copy of `part`.
pub open spec fn shorn_end(s: Text, part: Text) -> Text
    decreases s.len(),
{
    if part.len() > 0 && has_suffix(s, part) {
        shorn_end(s.take(s.len() - part.len()), part)
    } else {
        s
    }
}

pub fn trim_end_matches(s: &str, part: &str) -> (out: String)
    ensures
        out@ == shorn_end(s@, part@),
{
    let chars = to_chars(s);
    let tail = to_chars(part);
    if tail.len() == 0 {
        return s.to_owned();
    }
    let mut end: usize = chars.len();
    assert(chars@.take(end as int) =~= chars@);
    while tail.len() <= end && stands_at(&chars, &tail, end - tail.len())
        invariant
            end <= chars.len(),
            tail.len() > 0,
            shorn_end(chars@, tail@) == shorn_end(chars@.take(end as int), tail@),
        decreases end,
    {
        assert(chars@.take(end as int).subrange(end - tail@.len(), end as int) =~= chars@.subrange(
            end - tail@.len(),
            end as int,
        ));
        assert(chars@.take(end as int).take(end - tail@.len()) =~= chars@.take(end - tail@.len()));
        end = end - tail.len();
    }
    assert(tail@.len() <= end ==> chars@.take(end as int).subrange(end - tail@.len(), end as int)
        =~= chars@.subrange(end - tail@.len(), end as int));
    slice(&chars, 0, end)
}

// --- building ----------------------------------------------------------------

/// Adds an item to the end of a list.
pub(crate) fn push<T: DeepView>(list: &mut Vec<T>, item: T)
    ensures
        final(list).deep_view() == old(list).deep_view().push(item.deep_view()),
        final(list)@ == old(list)@.push(item),
{
    list.push(item);
    assert(list.deep_view() =~= old(list).deep_view().push(item.deep_view()));
}

pub(crate) fn copy_list(list: &Vec<String>) -> (out: Vec<String>)
    ensures
        out.deep_view() == list.deep_view(),
{
    let mut out: Vec<String> = Vec::new();
    let mut i: usize = 0;
    while i < list.len()
        invariant
            i <= list.len(),
            out.deep_view() == list.deep_view().take(i as int),
        decreases list.len() - i,
    {
        push(&mut out, list[i].clone());
        assert(out.deep_view() =~= list.deep_view().take(i + 1));
        i += 1;
    }
    assert(out.deep_view() =~= list.deep_view());
    out
}

pub fn cat(a: &str, b: &str) -> (out: String)
    ensures
        out@ == a@ + b@,
{
    let mut out = to_chars(a);
    let mut tail = to_chars(b);
    out.append(&mut tail);
    from_chars(out.as_slice())
}

/// Puts a text at the end of another.
pub(crate) fn extend(s: &mut String, part: &str)
    ensures
        final(s)@ == old(s)@ + part@,
{
    *s = cat(s.as_str(), part);
}

pub fn cat3(a: &str, b: &str, c: &str) -> (out: String)
    ensures
        out@ == a@ + b@ + c@,
{
    cat(cat(a, b).as_str(), c)
}

pub fn cat4(a: &str, b: &str, c: &str, d: &str) -> (out: String)
    ensures
        out@ == a@ + b@ + c@ + d@,
{
    cat(cat3(a, b, c).as_str(), d)
}

pub fn cat5(a: &str, b: &str, c: &str, d: &str, e: &str) -> (out: String)
    ensures
        out@ == a@ + b@ + c@ + d@ + e@,
{
    cat(cat4(a, b, c, d).as_str(), e)
}

/// The text with each `old` character replaced by `new`.
pub open spec fn replaced(s: Text, old_char: char, new: Text) -> Text
    decreases s.len(),
{
    if s.len() == 0 {
        seq![]
    } else if s.last() == old_char {
        replaced(s.drop_last(), old_char, new) + new
    } else {
        replaced(s.drop_last(), old_char, new).push(s.last())
    }
}

/// Replacing a character by nothing leaves the others as they stand.
pub proof fn lemma_without(s: Text, c: char)
    ensures
        replaced(s, c, seq![]) == s.filter(|other: char| other != c),
    decreases s.len(),
{
    reveal(Seq::filter);
    if s.len() > 0 {
        lemma_without(s.drop_last(), c);
        let front = replaced(s.drop_last(), c, seq![]);
        assert(front + Seq::<char>::empty() =~= front);
    }
}

pub fn replace(s: &str, old_char: char, new: &str) -> (out: String)
    ensures
        out@ == replaced(s@, old_char, new@),
{
    let chars = to_chars(s);
    let mut out: Vec<char> = Vec::new();
    let mut i: usize = 0;
    assert(chars@.take(0) =~= seq![]);
    while i < chars.len()
        invariant
            i <= chars.len(),
            out@ == replaced(chars@.take(i as int), old_char, new@),
        decreases chars.len() - i,
    {
        assert(chars@.take(i + 1).drop_last() =~= chars@.take(i as int));
        if chars[i] == old_char {
            let mut more = to_chars(new);
            out.append(&mut more);
        } else {
            out.push(chars[i]);
        }
        i += 1;
    }
    assert(chars@.take(i as int) =~= chars@);
    from_chars(out.as_slice())
}

/// The parts in order with `sep` between them.
pub open spec fn joined(parts: Seq<Text>, sep: Text) -> Text
    decreases parts.len(),
{
    if parts.len() == 0 {
        seq![]
    } else if parts.len() == 1 {
        parts[0]
    } else {
        joined(parts.drop_last(), sep) + sep + parts.last()
    }
}

pub fn join(parts: &Vec<String>, sep: &str) -> (out: String)
    ensures
        out@ == joined(parts.deep_view(), sep@),
{
    let mut out: Vec<char> = Vec::new();
    let mut i: usize = 0;
    let ghost all = parts.deep_view();
    while i < parts.len()
        invariant
            i <= parts.len(),
            all == parts.deep_view(),
            out@ == joined(all.take(i as int), sep@),
        decreases parts.len() - i,
    {
        assert(all.take(i + 1).drop_last() =~= all.take(i as int));
        let ghost before = out@;
        if i > 0 {
            let mut mark = to_chars(sep);
            out.append(&mut mark);
        }
        let mut part = to_chars(parts[i].as_str());
        out.append(&mut part);
        if i == 0 {
            assert(out@ =~= all.take(1)[0]);
        } else {
            assert(out@ =~= before + sep@ + all[i as int]);
        }
        i += 1;
    }
    assert(all.take(i as int) =~= all);
    from_chars(out.as_slice())
}

/// `n` copies of one character.
pub open spec fn repeated(c: char, n: nat) -> Text {
    Seq::new(n, |i: int| c)
}

pub fn repeat(c: char, n: u64) -> (out: String)
    ensures
        out@ == repeated(c, n as nat),
{
    let mut out: Vec<char> = Vec::new();
    let mut i: u64 = 0;
    while i < n
        invariant
            i <= n,
            out@ == repeated(c, i as nat),
        decreases n - i,
    {
        out.push(c);
        assert(out@ =~= repeated(c, (i + 1) as nat));
        i += 1;
    }
    from_chars(out.as_slice())
}

/// A text at the left of a column of `n` characters.
pub open spec fn left_in(s: Text, n: nat) -> Text {
    if s.len() < n {
        s + repeated(' ', (n - s.len()) as nat)
    } else {
        s
    }
}

pub fn left(s: &str, n: usize) -> (out: String)
    ensures
        out@ == left_in(s@, n as nat),
{
    let held: usize = to_chars(s).len();
    if held < n {
        cat(s, repeat(' ', (n - held) as u64).as_str())
    } else {
        s.to_owned()
    }
}

/// A text at the right of a column of `n` characters.
pub open spec fn right_in(s: Text, n: nat) -> Text {
    if s.len() < n {
        repeated(' ', (n - s.len()) as nat) + s
    } else {
        s
    }
}

pub fn right(s: &str, n: usize) -> (out: String)
    ensures
        out@ == right_in(s@, n as nat),
{
    let held: usize = to_chars(s).len();
    if held < n {
        cat(repeat(' ', (n - held) as u64).as_str(), s)
    } else {
        s.to_owned()
    }
}

/// How often a character stands in a text.
pub open spec fn count_of(s: Text, c: char) -> nat
    decreases s.len(),
{
    if s.len() == 0 {
        0
    } else {
        count_of(s.drop_last(), c) + if s.last() == c {
            1nat
        } else {
            0nat
        }
    }
}

pub fn count(s: &str, c: char) -> (n: usize)
    ensures
        n == count_of(s@, c),
{
    let chars = to_chars(s);
    let mut n: usize = 0;
    let mut i: usize = 0;
    while i < chars.len()
        invariant
            i <= chars.len(),
            n <= i,
            n == count_of(chars@.take(i as int), c),
        decreases chars.len() - i,
    {
        assert(chars@.take(i + 1).drop_last() =~= chars@.take(i as int));
        if chars[i] == c {
            n += 1;
        }
        i += 1;
    }
    assert(chars@.take(i as int) =~= chars@);
    n
}

// --- numbers -----------------------------------------------------------------

pub open spec fn digit(d: nat) -> char {
    (48 + d) as char
}

/// A number in decimal, with no leading zero.
pub open spec fn decimal_of(n: nat) -> Text
    decreases n,
{
    if n < 10 {
        seq![digit(n)]
    } else {
        decimal_of(n / 10).push(digit(n % 10))
    }
}

fn digit_char(d: u64) -> (c: char)
    requires
        d < 10,
    ensures
        c == digit(d as nat),
{
    (48u8 + d as u8) as char
}

fn decimal_chars(n: u64) -> (out: Vec<char>)
    ensures
        out@ == decimal_of(n as nat),
    decreases n,
{
    let mut out: Vec<char> = Vec::new();
    if n >= 10 {
        out = decimal_chars(n / 10);
    }
    out.push(digit_char(n % 10));
    assert(n < 10 ==> out@ =~= seq![digit(n as nat)]);
    out
}

pub fn decimal(n: u64) -> (out: String)
    ensures
        out@ == decimal_of(n as nat),
{
    from_chars(decimal_chars(n).as_slice())
}

/// An ASCII letter as a capital.
pub open spec fn raised(c: char) -> char {
    if 'a' <= c <= 'z' {
        ((c as u32) - 32) as char
    } else {
        c
    }
}

/// An ASCII letter as a small one.
pub open spec fn lowered(c: char) -> char {
    if 'A' <= c <= 'Z' {
        ((c as u32) + 32) as char
    } else {
        c
    }
}

pub open spec fn upper_of(s: Text) -> Text {
    Seq::new(s.len(), |i: int| raised(s[i]))
}

pub open spec fn lower_of(s: Text) -> Text {
    Seq::new(s.len(), |i: int| lowered(s[i]))
}

pub fn upper(s: &str) -> (out: String)
    ensures
        out@ == upper_of(s@),
{
    let chars = to_chars(s);
    let mut out: Vec<char> = Vec::new();
    let mut i: usize = 0;
    while i < chars.len()
        invariant
            i <= chars.len(),
            chars@ == s@,
            out@ == upper_of(s@).take(i as int),
        decreases chars.len() - i,
    {
        let n: u32 = chars[i] as u32;
        if 97 <= n && n <= 122 {
            out.push((n as u8 - 32) as char);
        } else {
            out.push(chars[i]);
        }
        assert(out@ =~= upper_of(s@).take(i + 1));
        i += 1;
    }
    assert(out@ =~= upper_of(s@));
    from_chars(out.as_slice())
}

pub fn lower(s: &str) -> (out: String)
    ensures
        out@ == lower_of(s@),
{
    let chars = to_chars(s);
    let mut out: Vec<char> = Vec::new();
    let mut i: usize = 0;
    while i < chars.len()
        invariant
            i <= chars.len(),
            chars@ == s@,
            out@ == lower_of(s@).take(i as int),
        decreases chars.len() - i,
    {
        let n: u32 = chars[i] as u32;
        if 65 <= n && n <= 90 {
            out.push((n as u8 + 32) as char);
        } else {
            out.push(chars[i]);
        }
        assert(out@ =~= lower_of(s@).take(i + 1));
        i += 1;
    }
    assert(out@ =~= lower_of(s@));
    from_chars(out.as_slice())
}

pub open spec fn is_digit(c: char) -> bool {
    '0' <= c <= '9'
}

/// The number that digits spell, when all of them are digits.
pub open spec fn digits_of(s: Text) -> Option<nat>
    decreases s.len(),
{
    if s.len() == 0 {
        Some(0)
    } else {
        match digits_of(s.drop_last()) {
            Some(n) if is_digit(s.last()) => Some(
                n * 10 + (s.last() as int - '0' as int) as nat,
            ),
            _ => None,
        }
    }
}

/// The number a text is, when it is one: digits, after a plus sign or not, that
/// fit in 32 bits.
pub open spec fn small_number(s: Text) -> Option<u32> {
    let digits = if s.len() > 0 && s[0] == '+' {
        s.skip(1)
    } else {
        s
    };
    match digits_of(digits) {
        Some(n) if digits.len() > 0 && n <= u32::MAX => Some(n as u32),
        _ => None,
    }
}

/// Digits that spell no number, or too large a one, go on doing so.
proof fn lemma_digits_wrong(s: Text, at: int, limit: nat)
    requires
        0 <= at <= s.len(),
        match digits_of(s.take(at)) {
            Some(n) => n > limit,
            None => true,
        },
    ensures
        match digits_of(s) {
            Some(n) => n > limit,
            None => true,
        },
    decreases s.len(),
{
    if at < s.len() {
        assert(s.drop_last().take(at) =~= s.take(at));
        lemma_digits_wrong(s.drop_last(), at, limit);
    } else {
        assert(s.take(at) =~= s);
    }
}

/// The number that the characters from one on spell, when it is not too large.
fn digits_from(chars: &Vec<char>, from: usize, limit: u64) -> (n: Option<u64>)
    requires
        from <= chars.len(),
    ensures
        match n {
            Some(n) => digits_of(chars@.skip(from as int)) == Some(n as nat) && n <= limit,
            None => match digits_of(chars@.skip(from as int)) {
                Some(n) => n > limit,
                None => true,
            },
        },
{
    let ghost all = chars@.skip(from as int);
    let mut n: u64 = 0;
    let mut i: usize = from;
    assert(all.take(0) =~= seq![]);
    while i < chars.len()
        invariant
            from <= i <= chars.len(),
            all == chars@.skip(from as int),
            n <= limit,
            digits_of(all.take(i - from)) == Some(n as nat),
        decreases chars.len() - i,
    {
        let c: u32 = code(chars[i]);
        let ghost next = all.take(i - from + 1);
        assert(next.drop_last() =~= all.take(i - from));
        assert(next.last() == chars@[i as int]);
        if c < 48 || c > 57 {
            proof {
                lemma_digits_wrong(all, i - from + 1, limit as nat);
            }
            return None;
        }
        let last: u64 = (c - 48) as u64;
        if last > limit || n > (limit - last) / 10 {
            proof {
                assert(digits_of(next) == Some((n * 10 + last) as nat));
                lemma_digits_wrong(all, i - from + 1, limit as nat);
            }
            return None;
        }
        let more: u64 = n * 10 + last;
        assert(digits_of(next) == Some(more as nat));
        n = more;
        i += 1;
        assert(all.take(i - from) == next);
    }
    assert(all.take(i - from) =~= all);
    Some(n)
}

pub fn parse_small(s: &str) -> (n: Option<u32>)
    ensures
        n == small_number(s@),
{
    let chars = to_chars(s);
    let from: usize = if chars.len() > 0 && chars[0] == '+' {
        1
    } else {
        0
    };
    assert(chars@.skip(0) =~= chars@);
    if from == chars.len() {
        return None;
    }
    match digits_from(&chars, from, 0xffff_ffff) {
        Some(n) => Some(n as u32),
        None => None,
    }
}

/// The number a text is, when it is one: digits, after a plus sign or not, that
/// fit in 64 bits.
pub open spec fn count_number(s: Text) -> Option<u64> {
    let digits = if s.len() > 0 && s[0] == '+' {
        s.skip(1)
    } else {
        s
    };
    match digits_of(digits) {
        Some(n) if digits.len() > 0 && n <= u64::MAX => Some(n as u64),
        _ => None,
    }
}

pub fn parse_count(s: &str) -> (n: Option<u64>)
    ensures
        n == count_number(s@),
{
    let chars = to_chars(s);
    let from: usize = if chars.len() > 0 && chars[0] == '+' {
        1
    } else {
        0
    };
    assert(chars@.skip(0) =~= chars@);
    if from == chars.len() {
        return None;
    }
    digits_from(&chars, from, u64::MAX)
}

/// The whole number a text is, when it is one: digits, after a minus sign or
/// not, whose size is below nine thousand million million.
pub open spec fn whole_of(s: Text) -> Option<int> {
    let minus = s.len() > 0 && s[0] == '-';
    let digits = if minus {
        s.skip(1)
    } else {
        s
    };
    match digits_of(digits) {
        Some(n) if digits.len() > 0 && n < 9_000_000_000_000_000 => Some(
            if minus {
                -(n as int)
            } else {
                n as int
            },
        ),
        _ => None,
    }
}

pub fn parse_whole(s: &str) -> (n: Option<i64>)
    ensures
        match n {
            Some(n) => whole_of(s@) == Some(n as int),
            None => whole_of(s@) is None,
        },
{
    let chars = to_chars(s);
    let minus = chars.len() > 0 && chars[0] == '-';
    let from: usize = if minus {
        1
    } else {
        0
    };
    assert(chars@.skip(0) =~= chars@);
    if from == chars.len() {
        return None;
    }
    match digits_from(&chars, from, 8_999_999_999_999_999) {
        Some(n) => if minus {
            Some(-(n as i64))
        } else {
            Some(n as i64)
        },
        None => None,
    }
}

/// A number in hexadecimal.
pub open spec fn hex_of(n: nat) -> Text
    decreases n,
{
    if n < 16 {
        seq![hex_digit(n)]
    } else {
        hex_of(n / 16).push(hex_digit(n % 16))
    }
}

pub open spec fn hex_digit(d: nat) -> char {
    if d < 10 {
        (('0' as u32) + d) as char
    } else {
        (('a' as u32) + (d - 10)) as char
    }
}

fn hex_char(d: u64) -> (c: char)
    requires
        d < 16,
    ensures
        c == hex_digit(d as nat),
{
    let n: u8 = d as u8;
    if n < 10 {
        (0x30 + n) as char
    } else {
        (0x61 + (n - 10)) as char
    }
}

fn hex_chars(n: u64) -> (out: Vec<char>)
    ensures
        out@ == hex_of(n as nat),
    decreases n,
{
    if n < 16 {
        let mut out: Vec<char> = Vec::new();
        out.push(hex_char(n));
        assert(out@ =~= hex_of(n as nat));
        out
    } else {
        let mut out = hex_chars(n / 16);
        out.push(hex_char(n % 16));
        out
    }
}

pub fn hex(n: u64) -> (out: String)
    ensures
        out@ == hex_of(n as nat),
{
    from_chars(hex_chars(n).as_slice())
}

pub open spec fn signed_of(n: int) -> Text {
    if n < 0 {
        seq!['-'] + decimal_of((-n) as nat)
    } else {
        decimal_of(n as nat)
    }
}

pub fn signed(n: i64) -> (out: String)
    ensures
        out@ == signed_of(n as int),
{
    if n < 0 {
        let size: u64 = (-(n as i128)) as u64;
        let mut out: Vec<char> = Vec::new();
        out.push('-');
        let mut digits = decimal_chars(size);
        out.append(&mut digits);
        assert(out@ =~= signed_of(n as int));
        from_chars(out.as_slice())
    } else {
        decimal(n as u64)
    }
}

// --- order -------------------------------------------------------------------

/// Text in the order of its characters' code points.
pub open spec fn less(a: Text, b: Text) -> bool
    decreases a.len(),
{
    if b.len() == 0 {
        false
    } else if a.len() == 0 {
        true
    } else if a[0] != b[0] {
        a[0] < b[0]
    } else {
        less(a.skip(1), b.skip(1))
    }
}

fn code(c: char) -> (n: u32)
    ensures
        n == c as int,
{
    c as u32
}

pub fn is_less(a: &str, b: &str) -> (r: bool)
    ensures
        r == less(a@, b@),
{
    let x = to_chars(a);
    let y = to_chars(b);
    let mut i: usize = 0;
    assert(x@.skip(0) =~= x@ && y@.skip(0) =~= y@);
    while i < x.len() && i < y.len()
        invariant
            i <= x.len(),
            i <= y.len(),
            x@ == a@,
            y@ == b@,
            less(x@, y@) == less(x@.skip(i as int), y@.skip(i as int)),
        decreases x.len() - i,
    {
        if x[i] != y[i] {
            let left: char = x[i];
            let right: char = y[i];
            assert(x@.skip(i as int)[0] == left && y@.skip(i as int)[0] == right);
            return code(left) < code(right);
        }
        assert(x@.skip(i as int).skip(1) =~= x@.skip(i + 1));
        assert(y@.skip(i as int).skip(1) =~= y@.skip(i + 1));
        i += 1;
    }
    i < y.len()
}

pub proof fn lemma_less_irreflexive(a: Text)
    ensures
        !less(a, a),
    decreases a.len(),
{
    if a.len() > 0 {
        lemma_less_irreflexive(a.skip(1));
    }
}

pub proof fn lemma_less_transitive(a: Text, b: Text, c: Text)
    requires
        less(a, b),
        less(b, c),
    ensures
        less(a, c),
    decreases a.len(),
{
    if a.len() > 0 && b.len() > 0 && c.len() > 0 && a[0] == b[0] && b[0] == c[0] {
        lemma_less_transitive(a.skip(1), b.skip(1), c.skip(1));
    }
}

/// Of two texts that differ, one comes first.
pub proof fn lemma_less_total(a: Text, b: Text)
    ensures
        less(a, b) || less(b, a) || a == b,
    decreases a.len(),
{
    if a.len() > 0 && b.len() > 0 && a[0] == b[0] {
        lemma_less_total(a.skip(1), b.skip(1));
        if a.skip(1) == b.skip(1) {
            assert(a =~= seq![a[0]] + a.skip(1));
            assert(b =~= seq![b[0]] + b.skip(1));
        }
    } else if a.len() == 0 && b.len() == 0 {
        assert(a =~= b);
    }
}


proof fn lemma_joined_front(first: Text, rest: Seq<Text>, sep: Text)
    requires
        rest.len() > 0,
    ensures
        joined(seq![first] + rest, sep) == first + sep + joined(rest, sep),
    decreases rest.len(),
{
    let all = seq![first] + rest;
    if rest.len() == 1 {
        reveal_with_fuel(joined, 2);
        assert(all.drop_last() =~= seq![first]);
        assert(all.last() == rest[0]);
    } else {
        lemma_joined_front(first, rest.drop_last(), sep);
        assert(all.drop_last() =~= seq![first] + rest.drop_last());
        assert(all.last() == rest.last());
        assert(joined(all, sep) =~= first + sep + joined(rest, sep));
    }
}

/// The pieces of a text, joined again, are the text, and the mark between them
/// stands in none.
pub proof fn lemma_pieces_joined(s: Text, sep: Text)
    requires
        sep.len() > 0,
    ensures
        joined(pieces(s, sep), sep) == s,
        forall|i: int| 0 <= i < pieces(s, sep).len() ==> !has_part(#[trigger] pieces(s, sep)[i], sep),
    decreases s.len(),
{
    lemma_find_from(s, sep, 0);
    match find(s, sep) {
        Some(i) => {
            let first = s.take(i);
            let rest = s.skip(i + sep.len());
            lemma_pieces_joined(rest, sep);
            lemma_joined_front(first, pieces(rest, sep), sep);
            assert(s.subrange(i, i + sep.len()) == sep);
            assert(first + sep + rest =~= s);
            lemma_find_from(first, sep, 0);
            assert(!has_part(first, sep)) by {
                if has_part(first, sep) {
                    let j = find(first, sep)->Some_0;
                    assert(first.subrange(j, j + sep.len()) =~= s.subrange(j, j + sep.len()));
                    assert(occurs_at(s, sep, j));
                }
            }
        },
        None => {},
    }
}

/// What is trimmed has no space at either end, and only spaces were taken away.
pub proof fn lemma_trimmed(s: Text)
    ensures
        trimmed(s).len() > 0 ==> !is_space(trimmed(s)[0]) && !is_space(trimmed(s).last()),
        exists|from: int, to: int|
            #![trigger s.subrange(from, to)]
            0 <= from <= to <= s.len() && trimmed(s) == s.subrange(from, to) && (forall|k: int|
                0 <= k < from || to <= k < s.len() ==> is_space(#[trigger] s[k])),
{
    lemma_front_spaces(s);
    let front = trimmed_start(s);
    lemma_back_spaces(front);
    let from = s.len() - front.len();
    let to = from + trimmed_end(front).len();
    lemma_trimmed_start(s);
    assert(trimmed_end(front) =~= s.subrange(from, to)) by {
        assert(trimmed_end(front) == front.take(trimmed_end(front).len() as int));
    }
    assert forall|k: int| to <= k < s.len() implies is_space(#[trigger] s[k]) by {
        assert(front[k - from] == s[k]);
    }
}

proof fn lemma_front_spaces(s: Text)
    ensures
        trimmed_start(s).len() <= s.len(),
        trimmed_start(s).len() > 0 ==> !is_space(trimmed_start(s)[0]),
        forall|k: int| 0 <= k < s.len() - trimmed_start(s).len() ==> is_space(#[trigger] s[k]),
    decreases s.len(),
{
    if s.len() > 0 && is_space(s[0]) {
        lemma_front_spaces(s.skip(1));
        assert forall|k: int| 0 < k < s.len() - trimmed_start(s).len() implies is_space(
            #[trigger] s[k],
        ) by {
            assert(s.skip(1)[k - 1] == s[k]);
        }
    }
}

proof fn lemma_back_spaces(s: Text)
    ensures
        trimmed_end(s).len() <= s.len(),
        trimmed_end(s) == s.take(trimmed_end(s).len() as int),
        trimmed_end(s).len() > 0 ==> !is_space(trimmed_end(s).last()),
        forall|k: int| trimmed_end(s).len() <= k < s.len() ==> is_space(#[trigger] s[k]),
    decreases s.len(),
{
    if s.len() > 0 && is_space(s.last()) {
        lemma_back_spaces(s.drop_last());
        let n = trimmed_end(s).len() as int;
        assert(s.drop_last().take(n) =~= s.take(n));
        assert forall|k: int| n <= k < s.len() implies is_space(#[trigger] s[k]) by {
            if k < s.len() - 1 {
                assert(s.drop_last()[k] == s[k]);
            }
        }
    } else {
        assert(s.take(s.len() as int) =~= s);
    }
}

/// A text set in a column keeps what it says and fills the column.
pub proof fn lemma_set_in(s: Text, n: nat)
    ensures
        left_in(s, n).len() == if s.len() < n { n } else { s.len() },
        left_in(s, n).take(s.len() as int) == s,
        forall|i: int| s.len() <= i < left_in(s, n).len() ==> left_in(s, n)[i] == ' ',
        right_in(s, n).len() == left_in(s, n).len(),
        right_in(s, n).skip(right_in(s, n).len() - s.len()) == s,
        forall|i: int| 0 <= i < right_in(s, n).len() - s.len() ==> right_in(s, n)[i] == ' ',
{
    if s.len() < n {
        lemma_repeated(' ', (n - s.len()) as nat);
    }
    assert(left_in(s, n).take(s.len() as int) =~= s);
    assert(right_in(s, n).skip(right_in(s, n).len() - s.len()) =~= s);
}

/// A character repeated is as long as it is often, and nothing else.
pub proof fn lemma_repeated(c: char, n: nat)
    ensures
        repeated(c, n).len() == n,
        forall|i: int| 0 <= i < n ==> repeated(c, n)[i] == c,
    decreases n,
{
    if n > 0 {
        lemma_repeated(c, (n - 1) as nat);
    }
}

/// A text without a slash is one piece, and before a slash it is the first.
pub proof fn lemma_pieces_front(first: Text, rest: Text)
    requires
        !first.contains('/'),
    ensures
        pieces(first, "/"@) == seq![first],
        pieces(first + "/"@ + rest, "/"@) == seq![first] + pieces(rest, "/"@),
{
    reveal_strlit("/");
    assert("/"@ =~= seq!['/']);
    let n = first.len() as int;
    assert forall|j: int| occurs_at(first, "/"@, j) implies false by {
        assert(first.subrange(j, j + 1)[0] == first[j]);
    }
    lemma_find_from(first, "/"@, 0);
    let s = first + "/"@ + rest;
    assert forall|j: int| 0 <= j < n implies !occurs_at(s, "/"@, j) by {
        if occurs_at(s, "/"@, j) {
            assert(s.subrange(j, j + 1)[0] == first[j]);
        }
    }
    assert(s.subrange(n, n + 1) =~= "/"@);
    assert(occurs_at(s, "/"@, n));
    lemma_find_from(s, "/"@, 0);
    assert(find(s, "/"@) == Some(n));
    assert(s.take(n) =~= first);
    assert(s.skip(n + 1) =~= rest);
}

}
