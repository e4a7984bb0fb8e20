use vstd::prelude::*;
use vstd::utf8::is_ascii_chars;

use crate::pattern::{regex_compiles, regex_finds, CompiledPattern};

verus! {

broadcast use vstd::string::group_string_axioms;

/// A character that survives sanitizing: an ASCII letter, an ASCII digit or an apostrophe.
pub open spec fn is_word_char(c: char) -> bool {
    ||| ('a' <= c && c <= 'z')
    ||| ('A' <= c && c <= 'Z')
    ||| ('0' <= c && c <= '9')
    ||| c == '\''
}

/// The maximal runs of word characters in `s`, from left to right.
pub open spec fn words(s: Seq<char>) -> Seq<Seq<char>>
    decreases s.len(),
{
    if s.len() == 0 {
        Seq::empty()
    } else {
        let rest = words(s.drop_last());
        let c = s.last();
        if !is_word_char(c) {
            rest
        } else if s.len() > 1 && is_word_char(s[s.len() - 2]) {
            rest.update(rest.len() - 1, rest.last().push(c))
        } else {
            rest.push(seq![c])
        }
    }
}

/// The words of `ws` joined by single spaces.
pub open spec fn join_words(ws: Seq<Seq<char>>) -> Seq<char>
    decreases ws.len(),
{
    if ws.len() == 0 {
        Seq::empty()
    } else if ws.len() == 1 {
        ws[0]
    } else {
        join_words(ws.drop_last()) + seq![' '] + ws.last()
    }
}

/// What `sanitize` returns: the runs of ASCII letters, digits and apostrophes of `s`,
/// joined by single spaces.
pub open spec fn sanitized(s: Seq<char>) -> Seq<char> {
    join_words(words(s))
}

proof fn lemma_words_nonempty_after_word_char(s: Seq<char>)
    requires
        s.len() > 0,
        is_word_char(s.last()),
    ensures
        words(s).len() > 0,
    decreases s.len(),
{
    if s.len() > 1 && is_word_char(s[s.len() - 2]) {
        lemma_words_nonempty_after_word_char(s.drop_last());
    }
}

proof fn lemma_join_extend_last(ws: Seq<Seq<char>>, c: char)
    requires
        ws.len() > 0,
    ensures
        join_words(ws.update(ws.len() - 1, ws.last().push(c))) == join_words(ws).push(c),
{
    let nw = ws.update(ws.len() - 1, ws.last().push(c));
    if ws.len() > 1 {
        assert(nw.drop_last() == ws.drop_last());
        assert(join_words(nw) == join_words(ws.drop_last()) + seq![' '] + ws.last().push(c));
    }
}

proof fn lemma_join_push(ws: Seq<Seq<char>>, w: Seq<char>)
    ensures
        ws.len() == 0 ==> join_words(ws.push(w)) == w,
        ws.len() > 0 ==> join_words(ws.push(w)) == join_words(ws) + seq![' '] + w,
{
    assert(ws.push(w).drop_last() == ws);
}

fn is_word_char_exec(c: char) -> (b: bool)
    ensures
        b == is_word_char(c),
{
    ('a' <= c && c <= 'z') || ('A' <= c && c <= 'Z') || ('0' <= c && c <= '9') || c == '\''
}

/// Strips every character that is not ASCII alphanumeric or an apostrophe; each run of
/// removed characters becomes a single space, with none at either end.
pub fn sanitize(input: &str) -> (out: String)
    ensures
        out@ == sanitized(input@),
{
    let mut out = String::new();
    let mut last_was_word = false;
    let mut any_word = false;
    for ch in it: input.chars()
        invariant
            it.seq() == input@,
            out@ == join_words(words(input@.take(it.index()))),
            last_was_word == (it.index() > 0 && is_word_char(input@[it.index() - 1])),
            any_word == (words(input@.take(it.index())).len() > 0),
    {
        let ghost i = it.index();
        let ghost prefix = input@.take(i);
        let ghost next = input@.take(i + 1);
        proof {
            assert(next.drop_last() == prefix);
            assert(next.last() == ch);
        }
        if is_word_char_exec(ch) {
            if last_was_word {
                proof {
                    assert(prefix.last() == input@[i - 1]);
                    lemma_words_nonempty_after_word_char(prefix);
                    lemma_join_extend_last(words(prefix), ch);
                }
            } else {
                proof {
                    lemma_join_push(words(prefix), seq![ch]);
                }
                if any_word {
                    out.push(' ');
                }
            }
            out.push(ch);
            last_was_word = true;
            any_word = true;
        } else {
            last_was_word = false;
        }
    }
    proof {
        assert(input@.take(input@.len() as int) == input@);
    }
    out
}


/// `s[i]` is the first character of a line that starts with a tab or with four spaces.
pub open spec fn indented_at(s: Seq<char>, i: int) -> bool {
    &&& 0 <= i < s.len()
    &&& (i == 0 || s[i - 1] == '\n')
    &&& (s[i] == '\t' || (i + 4 <= s.len() && s[i] == ' ' && s[i + 1] == ' ' && s[i + 2] == ' '
        && s[i + 3] == ' '))
}

/// At index `i` of `s` stands a mark of source code: a brace, the start of `//`, or an
/// indented line.
pub open spec fn code_mark_at(s: Seq<char>, i: int) -> bool {
    &&& 0 <= i < s.len()
    &&& {
        ||| s[i] == '{'
        ||| s[i] == '}'
        ||| (i + 1 < s.len() && s[i] == '/' && s[i + 1] == '/')
        ||| indented_at(s, i)
    }
}

/// Raw clipboard text that is skipped before sanitizing: a path (it starts with `/`),
/// a URL or a comment (it holds `//`), a code block (it holds a brace) or indented text.
pub open spec fn looks_like_code_or_path(s: Seq<char>) -> bool {
    ||| (s.len() > 0 && s[0] == '/')
    ||| exists|i: int| #[trigger] code_mark_at(s, i)
}

/// What `sanitize_option` returns: nothing for code, paths and URLs and for text that
/// sanitizes to nothing, else the sanitized text.
pub open spec fn speakable(s: Seq<char>) -> Option<Seq<char>> {
    if looks_like_code_or_path(s) || sanitized(s).len() == 0 {
        None
    } else {
        Some(sanitized(s))
    }
}

fn chars_of(s: &str) -> (v: Vec<char>)
    ensures
        v@ == s@,
{
    let mut v: Vec<char> = Vec::new();
    for c in it: s.chars()
        invariant
            it.seq() == s@,
            v@ == s@.take(it.index()),
    {
        proof {
            assert(s@.take(it.index() + 1) == s@.take(it.index()).push(c));
        }
        v.push(c);
    }
    proof {
        assert(s@.take(s@.len() as int) == s@);
    }
    v
}

fn code_mark_exec(s: &Vec<char>, i: usize) -> (b: bool)
    requires
        i < s.len(),
    ensures
        b == code_mark_at(s@, i as int),
{
    let c = s[i];
    if c == '{' || c == '}' {
        return true;
    }
    if i + 1 < s.len() && c == '/' && s[i + 1] == '/' {
        return true;
    }
    let line_start = i == 0 || s[i - 1] == '\n';
    if !line_start {
        return false;
    }
    c == '\t' || (s.len() - i >= 4 && c == ' ' && s[i + 1] == ' ' && s[i + 2] == ' ' && s[i + 3]
        == ' ')
}

fn looks_like_code_or_path_exec(s: &Vec<char>) -> (b: bool)
    ensures
        b == looks_like_code_or_path(s@),
{
    if s.len() > 0 && s[0] == '/' {
        return true;
    }
    let mut i: usize = 0;
    while i < s.len()
        invariant
            i <= s.len(),
            forall|j: int| 0 <= j < i ==> !code_mark_at(s@, j),
        decreases s.len() - i,
    {
        if code_mark_exec(s, i) {
            return true;
        }
        i = i + 1;
    }
    proof {
        assert forall|j: int| !code_mark_at(s@, j) by {
            if 0 <= j < s.len() {
            }
        }
    }
    false
}

/// Sanitizes clipboard text for speech; `None` when the raw text looks like code, a path
/// or a URL, or when nothing is left after sanitizing.
pub fn sanitize_option(input: &str) -> (r: Option<String>)
    ensures
        match r {
            Some(s) => speakable(input@) == Some(s@),
            None => speakable(input@) is None,
        },
{
    let raw = chars_of(input);
    if looks_like_code_or_path_exec(&raw) {
        return None;
    }
    let clean = sanitize(input);
    if clean.as_str().is_empty() {
        None
    } else {
        Some(clean)
    }
}

/// A non-empty run of word characters.
pub open spec fn is_word(w: Seq<char>) -> bool {
    &&& w.len() > 0
    &&& forall|i: int| 0 <= i < w.len() ==> is_word_char(#[trigger] w[i])
}

/// Text made of word characters and single spaces, with a word character on each side of
/// every space (so no space at either end and never two in a row).
pub open spec fn is_clean_text(t: Seq<char>) -> bool {
    forall|i: int|
        0 <= i < t.len() ==> is_word_char(#[trigger] t[i]) || (t[i] == ' ' && 0 < i < t.len() - 1
            && is_word_char(t[i - 1]) && is_word_char(t[i + 1]))
}

proof fn lemma_words_are_words(s: Seq<char>)
    ensures
        forall|k: int| 0 <= k < words(s).len() ==> is_word(#[trigger] words(s)[k]),
    decreases s.len(),
{
    if s.len() > 0 {
        lemma_words_are_words(s.drop_last());
        let rest = words(s.drop_last());
        let c = s.last();
        if is_word_char(c) && s.len() > 1 && is_word_char(s[s.len() - 2]) {
            lemma_words_nonempty_after_word_char(s.drop_last());
            let w = rest.last().push(c);
            assert(is_word(rest[rest.len() - 1]));
            assert(is_word(w));
        } else if is_word_char(c) {
            assert(is_word(seq![c]));
        }
    }
}

proof fn lemma_join_is_clean(ws: Seq<Seq<char>>)
    requires
        forall|k: int| 0 <= k < ws.len() ==> is_word(#[trigger] ws[k]),
    ensures
        is_clean_text(join_words(ws)),
        ws.len() > 0 ==> join_words(ws).len() > 0 && is_word_char(join_words(ws)[0])
            && is_word_char(join_words(ws).last()),
    decreases ws.len(),
{
    if ws.len() == 1 {
        assert(is_word(ws[0]));
    } else if ws.len() > 1 {
        let dl = ws.drop_last();
        lemma_join_is_clean(dl);
        let a = join_words(dl);
        let w = ws.last();
        assert(is_word(ws[ws.len() - 1]));
        let t = a + seq![' '] + w;
        assert(t == join_words(ws));
        assert forall|i: int| 0 <= i < t.len() implies is_word_char(#[trigger] t[i]) || (t[i]
            == ' ' && 0 < i < t.len() - 1 && is_word_char(t[i - 1]) && is_word_char(t[i + 1])) by {
            if i < a.len() {
                assert(t[i] == a[i]);
                if i + 1 < a.len() {
                    assert(t[i + 1] == a[i + 1]);
                }
                if i > 0 {
                    assert(t[i - 1] == a[i - 1]);
                }
            } else if i == a.len() {
                assert(t[i - 1] == a.last());
                assert(t[i + 1] == w[0]);
            } else {
                assert(t[i] == w[i - a.len() - 1]);
            }
        }
        assert(t[0] == a[0]);
        assert(t.last() == w.last());
    }
}

proof fn lemma_words_of_word(w: Seq<char>)
    requires
        is_word(w),
    ensures
        words(w) == seq![w],
    decreases w.len(),
{
    if w.len() > 1 {
        let dl = w.drop_last();
        assert(is_word(dl));
        lemma_words_of_word(dl);
        assert(w[w.len() - 2] == dl.last());
        assert(dl.push(w.last()) =~= w);
        assert(seq![dl].update(0, dl.push(w.last())) =~= seq![w]);
        assert(words(w) == seq![dl].update(0, dl.push(w.last())));
    } else {
        assert(w.drop_last().len() == 0);
        assert(words(w.drop_last()) == Seq::<Seq<char>>::empty());
        assert(seq![w.last()] =~= w);
        assert(words(w) == Seq::<Seq<char>>::empty().push(seq![w.last()]));
        assert(Seq::<Seq<char>>::empty().push(w) =~= seq![w]);
    }
}

proof fn lemma_words_space_word(a: Seq<char>, w: Seq<char>)
    requires
        is_word(w),
    ensures
        words(a + seq![' '] + w) == words(a).push(w),
    decreases w.len(),
{
    let x = a + seq![' '] + w;
    if w.len() == 1 {
        let xs = a + seq![' '];
        assert(xs.drop_last() == a);
        assert(words(xs) == words(a));
        assert(x.drop_last() == xs);
        assert(x[x.len() - 2] == ' ');
        assert(x.last() == w[0]);
        assert(seq![w[0]] == w);
    } else {
        let dl = w.drop_last();
        assert(is_word(dl));
        lemma_words_space_word(a, dl);
        assert(x.drop_last() == a + seq![' '] + dl);
        assert(x[x.len() - 2] == dl.last());
        assert(x.last() == w.last());
        assert(dl.push(w.last()) =~= w);
        assert(words(a).push(dl).update(words(a).len() as int, dl.push(w.last())) =~= words(
            a,
        ).push(w));
    }
}

proof fn lemma_words_of_join(ws: Seq<Seq<char>>)
    requires
        forall|k: int| 0 <= k < ws.len() ==> is_word(#[trigger] ws[k]),
    ensures
        words(join_words(ws)) == ws,
    decreases ws.len(),
{
    if ws.len() == 0 {
    } else if ws.len() == 1 {
        assert(is_word(ws[0]));
        lemma_words_of_word(ws[0]);
    } else {
        let dl = ws.drop_last();
        lemma_words_of_join(dl);
        assert(is_word(ws[ws.len() - 1]));
        lemma_words_space_word(join_words(dl), ws.last());
        assert(dl.push(ws.last()) == ws);
    }
}

/// Sanitized text holds only ASCII letters, digits, apostrophes and single spaces between
/// them: no space at either end, never two spaces in a row. It is therefore ASCII.
pub proof fn sanitized_is_clean(s: Seq<char>)
    ensures
        is_clean_text(sanitized(s)),
        is_ascii_chars(sanitized(s)),
{
    lemma_words_are_words(s);
    lemma_join_is_clean(words(s));
    let t = sanitized(s);
    assert forall|i: int| 0 <= i < t.len() implies '\0' <= #[trigger] t[i] <= '\u{7f}' by {
        assert(is_word_char(t[i]) || t[i] == ' ');
    }
}

/// Sanitizing is idempotent: sanitized text comes through a second pass unchanged.
pub proof fn sanitize_is_idempotent(s: Seq<char>)
    ensures
        sanitized(sanitized(s)) == sanitized(s),
{
    lemma_words_are_words(s);
    lemma_words_of_join(words(s));
}

/// What `sanitize_option` lets through is let through again, unchanged.
pub proof fn speakable_is_stable(s: Seq<char>)
    ensures
        speakable(s) matches Some(t) ==> speakable(t) == Some(t),
{
    if let Some(t) = speakable(s) {
        sanitized_is_clean(s);
        sanitize_is_idempotent(s);
        assert(is_word_char(t[0]));
        assert forall|i: int| !code_mark_at(t, i) by {
            if 0 <= i < t.len() {
                assert(is_word_char(t[i]) || t[i] == ' ');
                if i + 1 < t.len() {
                    assert(is_word_char(t[i + 1]) || t[i + 1] == ' ');
                }
                if i > 0 {
                    assert(is_word_char(t[i - 1]) || t[i - 1] == ' ');
                }
            }
        }
    }
}

proof fn lemma_sanitized_keeps_kept_chars(s: Seq<char>, kept: spec_fn(char) -> bool, nonspace: spec_fn(char) -> bool)
    requires
        forall|c: char| #[trigger] kept(c) == is_word_char(c),
        forall|c: char| #[trigger] nonspace(c) == (c != ' '),
    ensures
        sanitized(s).filter(nonspace) == s.filter(kept),
    decreases s.len(),
{
    reveal(Seq::filter);
    if s.len() > 0 {
        let p = s.drop_last();
        let c = s.last();
        lemma_sanitized_keeps_kept_chars(p, kept, nonspace);
        let jp = join_words(words(p));
        assert(s.filter(kept) == if kept(c) { p.filter(kept).push(c) } else { p.filter(kept) });
        if is_word_char(c) {
            assert(c != ' ');
            if s.len() > 1 && is_word_char(s[s.len() - 2]) {
                assert(p.last() == s[s.len() - 2]);
                lemma_words_nonempty_after_word_char(p);
                lemma_join_extend_last(words(p), c);
                assert(jp.push(c).drop_last() == jp);
                assert(jp.push(c).filter(nonspace) == jp.filter(nonspace).push(c));
            } else {
                lemma_join_push(words(p), seq![c]);
                assert(seq![c].drop_last() == Seq::<char>::empty());
                assert(seq![c].filter(nonspace) == seq![c]);
                if words(p).len() > 0 {
                    assert(seq![' '].drop_last() == Seq::<char>::empty());
                    assert(seq![' '].filter(nonspace) == Seq::<char>::empty());
                    Seq::filter_distributes_over_add(jp, seq![' '], nonspace);
                    Seq::filter_distributes_over_add(jp + seq![' '], seq![c], nonspace);
                    assert(jp.filter(nonspace) + Seq::<char>::empty() == jp.filter(nonspace));
                } else {
                    assert(jp == Seq::<char>::empty());
                    assert(jp.filter(nonspace) == Seq::<char>::empty());
                }
            }
        }
    }
}

/// What sanitizing keeps: every character of the result is an ASCII letter, an ASCII
/// digit, an apostrophe or a space; and with the spaces taken out, the result is exactly
/// the ASCII letters, digits and apostrophes of the input, in their order.
pub proof fn sanitize_keeps_exactly_letters_digits_apostrophes(s: Seq<char>)
    ensures
        forall|i: int|
            0 <= i < sanitized(s).len() ==> ('a' <= #[trigger] sanitized(s)[i] && sanitized(s)[i]
                <= 'z') || ('A' <= sanitized(s)[i] && sanitized(s)[i] <= 'Z') || ('0'
                <= sanitized(s)[i] && sanitized(s)[i] <= '9') || sanitized(s)[i] == '\''
                || sanitized(s)[i] == ' ',
        sanitized(s).filter(|c: char| c != ' ') == s.filter(
            |c: char|
                ('a' <= c && c <= 'z') || ('A' <= c && c <= 'Z') || ('0' <= c && c <= '9') || c
                    == '\'',
        ),
{
    sanitized_is_clean(s);
    let kept = |c: char|
        ('a' <= c && c <= 'z') || ('A' <= c && c <= 'Z') || ('0' <= c && c <= '9') || c == '\'';
    let nonspace = |c: char| c != ' ';
    lemma_sanitized_keeps_kept_chars(s, kept, nonspace);
}

/// Code, paths and URLs are never spoken: raw text holding `{`, `}` or `//` anywhere,
/// starting with `/`, or with a line that starts with a tab or four spaces, gives `None`.
/// Any other raw text gives its sanitized form, unless that is empty.
pub proof fn sanitize_option_skips_code_paths_and_urls(s: Seq<char>)
    ensures
        (exists|i: int| 0 <= i < s.len() && (s[i] == '{' || s[i] == '}')) ==> speakable(s) is None,
        (exists|i: int| 0 <= i && i + 1 < s.len() && #[trigger] s[i] == '/' && s[i + 1] == '/') ==> speakable(
            s,
        ) is None,
        (s.len() > 0 && s[0] == '/') ==> speakable(s) is None,
        (exists|i: int|
            0 <= i < s.len() && (i == 0 || s[i - 1] == '\n') && (#[trigger] s[i] == '\t' || (i + 4 <= s.len()
                && s[i] == ' ' && s[i + 1] == ' ' && s[i + 2] == ' ' && s[i + 3] == ' ')))
            ==> speakable(s) is None,
        sanitized(s).len() == 0 ==> speakable(s) is None,
        ({
            &&& !(s.len() > 0 && s[0] == '/')
            &&& forall|i: int| 0 <= i < s.len() ==> #[trigger] s[i] != '{' && s[i] != '}'
            &&& forall|i: int| 0 <= i && i + 1 < s.len() ==> !(#[trigger] s[i] == '/' && s[i + 1] == '/')
            &&& forall|i: int|
                0 <= i < s.len() && (i == 0 || s[i - 1] == '\n') ==> #[trigger] s[i] != '\t' && !(i + 4
                    <= s.len() && s[i] == ' ' && s[i + 1] == ' ' && s[i + 2] == ' ' && s[i + 3] == ' ')
            &&& sanitized(s).len() > 0
        }) ==> speakable(s) == Some(sanitized(s)),
{
    if exists|i: int| 0 <= i < s.len() && (s[i] == '{' || s[i] == '}') {
        let i = choose|i: int| 0 <= i < s.len() && (s[i] == '{' || s[i] == '}');
        assert(code_mark_at(s, i));
    }
    if exists|i: int| 0 <= i && i + 1 < s.len() && #[trigger] s[i] == '/' && s[i + 1] == '/' {
        let i = choose|i: int| 0 <= i && i + 1 < s.len() && #[trigger] s[i] == '/' && s[i + 1] == '/';
        assert(code_mark_at(s, i));
    }
    if exists|i: int|
        0 <= i < s.len() && (i == 0 || s[i - 1] == '\n') && (#[trigger] s[i] == '\t' || (i + 4 <= s.len() && s[i]
            == ' ' && s[i + 1] == ' ' && s[i + 2] == ' ' && s[i + 3] == ' ')) {
        let i = choose|i: int|
            0 <= i < s.len() && (i == 0 || s[i - 1] == '\n') && (#[trigger] s[i] == '\t' || (i + 4 <= s.len()
                && s[i] == ' ' && s[i + 1] == ' ' && s[i + 2] == ' ' && s[i + 3] == ' '));
        assert(indented_at(s, i));
        assert(code_mark_at(s, i));
    }
}

/// The filter rule, pattern by pattern: if any one exclude pattern matches, the text is
/// not spoken; if none does, the text is spoken exactly when there are no include patterns
/// or some include pattern matches.
pub proof fn filter_rule_pattern_by_pattern(
    includes: Seq<Seq<char>>,
    excludes: Seq<Seq<char>>,
    text: Seq<char>,
)
    ensures
        forall|i: int|
            0 <= i < excludes.len() && #[trigger] regex_finds(excludes[i], text) ==> !filter_allows(
                includes,
                excludes,
                text,
            ),
        (forall|j: int| 0 <= j < excludes.len() ==> !#[trigger] regex_finds(excludes[j], text)) ==> (
        filter_allows(includes, excludes, text) <==> (includes.len() == 0 || exists|i: int|
            0 <= i < includes.len() && #[trigger] regex_finds(includes[i], text))),
{
}

/// A pattern that did not compile, with the error that `regex` reported for it.
#[derive(Debug)]
pub struct FilterError {
    pub pattern: String,
    pub cause: regex::Error,
}

fn compile(source: &String) -> (r: Result<CompiledPattern, FilterError>)
    ensures
        match r {
            Ok(p) => regex_compiles(source@) && p@ == source@,
            Err(e) => !regex_compiles(source@) && e.pattern@ == source@,
        },
{
    match CompiledPattern::compile(source.as_str()) {
        Ok(p) => Ok(p),
        Err(cause) => Err(FilterError { pattern: source.clone(), cause }),
    }
}

/// The source texts of compiled patterns, in order.
pub open spec fn regex_sources(ps: Seq<CompiledPattern>) -> Seq<Seq<char>> {
    ps.map_values(|p: CompiledPattern| p@)
}

/// The first pattern of `ps` that does not compile, if any.
pub open spec fn first_invalid(ps: Seq<Seq<char>>) -> Option<Seq<char>>
    decreases ps.len(),
{
    if ps.len() == 0 {
        None
    } else if !regex_compiles(ps[0]) {
        Some(ps[0])
    } else {
        first_invalid(ps.drop_first())
    }
}

/// Some pattern of `ps` matches somewhere in `text`.
pub open spec fn any_finds(ps: Seq<Seq<char>>, text: Seq<char>) -> bool {
    exists|i: int| 0 <= i < ps.len() && #[trigger] regex_finds(ps[i], text)
}

/// The filter rule: with no include patterns every text passes the include gate, else some
/// include pattern must match; and no exclude pattern may match (exclude always wins).
pub open spec fn filter_allows(
    includes: Seq<Seq<char>>,
    excludes: Seq<Seq<char>>,
    text: Seq<char>,
) -> bool {
    (includes.len() == 0 || any_finds(includes, text)) && !any_finds(excludes, text)
}

/// The text views of a slice of strings.
pub open spec fn string_views(ss: Seq<String>) -> Seq<Seq<char>> {
    ss.map_values(|s: String| s@)
}

proof fn lemma_first_invalid_concat(a: Seq<Seq<char>>, b: Seq<Seq<char>>)
    ensures
        first_invalid(a + b) == if first_invalid(a) is Some {
            first_invalid(a)
        } else {
            first_invalid(b)
        },
    decreases a.len(),
{
    if a.len() == 0 {
        assert(a + b == b);
    } else {
        assert((a + b).drop_first() == a.drop_first() + b);
        assert((a + b)[0] == a[0]);
        lemma_first_invalid_concat(a.drop_first(), b);
    }
}

fn compile_all(sources: &[String]) -> (r: Result<Vec<CompiledPattern>, FilterError>)
    ensures
        match r {
            Ok(ps) => first_invalid(string_views(sources@)) is None && regex_sources(ps@)
                == string_views(sources@),
            Err(e) => first_invalid(string_views(sources@)) == Some(e.pattern@),
        },
{
    let ghost all = string_views(sources@);
    let mut out: Vec<CompiledPattern> = Vec::new();
    let mut i: usize = 0;
    assert(all.skip(0) == all);
    while i < sources.len()
        invariant
            i <= sources.len(),
            all == string_views(sources@),
            first_invalid(all) == first_invalid(all.skip(i as int)),
            out@.len() == i,
            forall|j: int| 0 <= j < i ==> #[trigger] out@[j]@ == all[j],
        decreases sources.len() - i,
    {
        assert(all.skip(i as int)[0] == sources@[i as int]@);
        assert(all.skip(i as int).drop_first() == all.skip(i + 1));
        match compile(&sources[i]) {
            Ok(p) => {
                out.push(p);
            },
            Err(e) => {
                return Err(e);
            },
        }
        i = i + 1;
    }
    assert(all.skip(i as int).len() == 0);
    assert(regex_sources(out@) =~= all);
    Ok(out)
}

/// A compiled include/exclude regex filter for clipboard text.
pub struct TextFilter {
    includes: Vec<CompiledPattern>,
    excludes: Vec<CompiledPattern>,
}

impl TextFilter {
    /// The source texts of the include regexes, in order.
    pub closed spec fn includes(&self) -> Seq<Seq<char>> {
        regex_sources(self.includes@)
    }

    /// The source texts of the exclude regexes, in order.
    pub closed spec fn excludes(&self) -> Seq<Seq<char>> {
        regex_sources(self.excludes@)
    }

    /// Compiles all patterns eagerly; fails with the first pattern (includes first, then
    /// excludes) that does not compile.
    pub fn new(includes: &[String], excludes: &[String]) -> (r: Result<Self, FilterError>)
        ensures
            match r {
                Ok(f) => {
                    &&& first_invalid(string_views(includes@) + string_views(excludes@)) is None
                    &&& f.includes() == string_views(includes@)
                    &&& f.excludes() == string_views(excludes@)
                },
                Err(e) => first_invalid(string_views(includes@) + string_views(excludes@))
                    == Some(e.pattern@),
            },
    {
        proof {
            lemma_first_invalid_concat(string_views(includes@), string_views(excludes@));
        }
        let inc = match compile_all(includes) {
            Ok(ps) => ps,
            Err(e) => return Err(e),
        };
        let exc = match compile_all(excludes) {
            Ok(ps) => ps,
            Err(e) => return Err(e),
        };
        Ok(TextFilter { includes: inc, excludes: exc })
    }

    /// Returns `true` when `text` should be sent to speech.
    pub fn should_speak(&self, text: &str) -> (b: bool)
        ensures
            b == filter_allows(self.includes(), self.excludes(), text@),
    {
        let pass_include = self.includes.len() == 0 || any_match(&self.includes, text);
        pass_include && !any_match(&self.excludes, text)
    }
}

fn any_match(ps: &Vec<CompiledPattern>, text: &str) -> (b: bool)
    ensures
        b == any_finds(regex_sources(ps@), text@),
{
    let ghost views = regex_sources(ps@);
    let mut i: usize = 0;
    while i < ps.len()
        invariant
            i <= ps.len(),
            views == regex_sources(ps@),
            forall|j: int| 0 <= j < i ==> !regex_finds(#[trigger] views[j], text@),
        decreases ps.len() - i,
    {
        if ps[i].is_match(text) {
            assert(regex_finds(views[i as int], text@));
            return true;
        }
        i = i + 1;
    }
    false
}

/// Exclude always wins: text that some exclude pattern matches is never spoken, whatever
/// the include patterns say.
pub proof fn exclude_always_wins(includes: Seq<Seq<char>>, excludes: Seq<Seq<char>>, text: Seq<char>)
    requires
        any_finds(excludes, text),
    ensures
        !filter_allows(includes, excludes, text),
{
}

/// Without include patterns, every text that no exclude pattern matches is spoken; with
/// include patterns, such text is spoken exactly when one of them matches (OR semantics).
pub proof fn include_gate(includes: Seq<Seq<char>>, excludes: Seq<Seq<char>>, text: Seq<char>)
    requires
        !any_finds(excludes, text),
    ensures
        includes.len() == 0 ==> filter_allows(includes, excludes, text),
        includes.len() > 0 ==> (filter_allows(includes, excludes, text) <==> exists|i: int|
            0 <= i < includes.len() && #[trigger] regex_finds(includes[i], text)),
{
}

} // verus!
