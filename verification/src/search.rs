//! The text side of `red_engine2 search`: cutting documentation into searchable fragments,
//! reducing text to index terms (light stemming, stop words, compound names split at hyphens),
//! expanding a query with a small synonym table, choosing a diverse set of hits, and printing
//! them. Scoring (BM25-style weights) is floating point and lives with the caller.
use vstd::prelude::*;
use crate::text::{
    trim_spec, trim,
    ascii_alnum, ascii_lower_seq, char_is_alphanumeric, chars_eq_str, chars_of, is_alphanumeric, is_ascii_seq, str_to_lowercase, string_from_chars,
    to_lowercase,
    utf8_len, utf8_length, lemma_utf8_len_at_least_chars,
};

verus! {

// ---------------------------------------------------------------------------------------------
// Stemming
// ---------------------------------------------------------------------------------------------

/// Whether the stemmer strips `suf` from the lower-cased word `l`: `l` ends with it and is more
/// than two bytes longer.
pub open spec fn strips(l: Seq<char>, suf: Seq<char>) -> bool {
    &&& utf8_len(l) > suf.len() + 2
    &&& suf.len() <= l.len()
    &&& l.subrange(l.len() - suf.len(), l.len() as int) == suf
}

/// The stem of an already lower-cased word: the first of `ing`, `ies` (which becomes `y`), `es`,
/// `ed`, `s` that it strips, else the word itself.
pub open spec fn stem_lower(l: Seq<char>) -> Seq<char> {
    if strips(l, "ing"@) {
        l.take(l.len() - 3)
    } else if strips(l, "ies"@) {
        l.take(l.len() - 3).push('y')
    } else if strips(l, "es"@) {
        l.take(l.len() - 2)
    } else if strips(l, "ed"@) {
        l.take(l.len() - 2)
    } else if strips(l, "s"@) {
        l.take(l.len() - 1)
    } else {
        l
    }
}

/// The stem of a word: lower-cased (an all-ASCII word by ASCII case), then [`stem_lower`].
pub open spec fn stem_spec(w: Seq<char>) -> Seq<char> {
    stem_lower(if is_ascii_seq(w) { ascii_lower_seq(w) } else { str_to_lowercase(w) })
}

/// Whether `l` ends with `suf` and is more than two bytes longer, given `n`, the byte length of
/// `l` (saturated at `usize::MAX`).
fn strips_exec(l: &Vec<char>, n: usize, suf: &str) -> (r: bool)
    requires
        n == if utf8_len(l@) <= usize::MAX { utf8_len(l@) } else { usize::MAX as nat },
        suf@.len() <= 3,
    ensures
        r == strips(l@, suf@),
{
    let sv = chars_of(suf);
    if n <= sv.len() + 2 || sv.len() > l.len() {
        return false;
    }
    let len = l.len();
    let start = len - sv.len();
    let mut i: usize = 0;
    while i < sv.len()
        invariant
            0 <= i <= sv@.len(),
            sv@ == suf@,
            start == l@.len() - sv@.len(),
            sv@.len() <= l@.len(),
            len == l@.len(),
            forall|j: int| 0 <= j < i ==> l@[start + j] == sv@[j],
        decreases sv@.len() - i,
    {
        assert(start + i < len);
        if l[start + i] != sv[i] {
            assert(l@.subrange(start as int, l@.len() as int)[i as int] == l@[start + i]);
            return false;
        }
        i = i + 1;
    }
    assert(l@.subrange(start as int, l@.len() as int) =~= sv@);
    true
}

/// The first `n` characters of `v`.
fn take_chars(v: &Vec<char>, n: usize) -> (r: Vec<char>)
    requires
        n <= v@.len(),
    ensures
        r@ == v@.take(n as int),
{
    let mut r: Vec<char> = Vec::new();
    let mut i: usize = 0;
    while i < n
        invariant
            0 <= i <= n,
            n <= v@.len(),
            r@ == v@.take(i as int),
        decreases n - i,
    {
        r.push(v[i]);
        i = i + 1;
        assert(r@ =~= v@.take(i as int));
    }
    r
}

/// The stem of a lower-cased word given as characters.
pub fn stem_chars(l: &Vec<char>) -> (r: Vec<char>)
    ensures
        r@ == stem_lower(l@),
{
    let n = utf8_length(l);
    proof {
        reveal_strlit("ing");
        reveal_strlit("ies");
        reveal_strlit("es");
        reveal_strlit("ed");
        reveal_strlit("s");
    }
    if strips_exec(l, n, "ing") {
        take_chars(l, l.len() - 3)
    } else if strips_exec(l, n, "ies") {
        let mut r = take_chars(l, l.len() - 3);
        r.push('y');
        r
    } else if strips_exec(l, n, "es") {
        take_chars(l, l.len() - 2)
    } else if strips_exec(l, n, "ed") {
        take_chars(l, l.len() - 2)
    } else if strips_exec(l, n, "s") {
        take_chars(l, l.len() - 1)
    } else {
        let r = take_chars(l, l.len());
        assert(l@.take(l@.len() as int) =~= l@);
        r
    }
}

/// Light stemming: lower-cases `w`, then strips the first of `ing`, `ies` (-> `y`), `es`,
/// `ed`, `s` that it ends with, provided the word is more than two bytes longer than the suffix.
pub fn stem(w: &str) -> (r: String)
    ensures
        r@ == stem_spec(w@),
        is_ascii_seq(w@) ==> r@ == stem_lower(ascii_lower_seq(w@)),
{
    let lower = to_lowercase(w);
    let l = chars_of(lower.as_str());
    let s = stem_chars(&l);
    string_from_chars(&s)
}


// ---------------------------------------------------------------------------------------------
// Tokenizing
// ---------------------------------------------------------------------------------------------

/// The pieces of `s` between the characters that satisfy `is_sep` (`str::split` with a
/// predicate): one more piece than there are separators, empty pieces included.
pub open spec fn split_at(s: Seq<char>, is_sep: spec_fn(char) -> bool) -> Seq<Seq<char>>
    decreases s.len(),
{
    if s.len() == 0 {
        seq![Seq::empty()]
    } else {
        let p = split_at(s.drop_last(), is_sep);
        if is_sep(s.last()) {
            p.push(Seq::empty())
        } else {
            p.update(p.len() - 1, p.last().push(s.last()))
        }
    }
}

/// The characters that separate words: everything but letters, digits (Unicode's; for ASCII, as
/// `char::is_alphanumeric` gives them: `a`..`z`, `A`..`Z`, `0`..`9`) and `-`.
pub open spec fn word_separator() -> spec_fn(char) -> bool {
    |c: char| !((if (c as u32) < 0x80 { ascii_alnum(c) } else { char_is_alphanumeric(c) }) || c == '-')
}

/// The hyphen, which splits compound words.
pub open spec fn hyphen() -> spec_fn(char) -> bool {
    |c: char| c == '-'
}

/// Words too common to index.
pub open spec fn stop_words() -> Seq<Seq<char>> {
    seq![
        "the"@,
        "a"@,
        "an"@,
        "of"@,
        "to"@,
        "in"@,
        "is"@,
        "it"@,
        "and"@,
        "or"@,
        "for"@,
        "on"@,
        "how"@,
        "do"@,
        "i"@,
        "can"@,
        "what"@,
        "with"@,
        "my"@,
        "be"@,
        "are"@,
        "does"@,
        "make"@,
        "get"@,
        "use"@,
        "add"@,
        "want"@,
        "need"@
    ]
}

/// The stems of those `pieces` that are longer than one byte, in order.
pub open spec fn long_stems(pieces: Seq<Seq<char>>) -> Seq<Seq<char>>
    decreases pieces.len(),
{
    if pieces.len() == 0 {
        Seq::empty()
    } else {
        long_stems(pieces.drop_last()) + if utf8_len(pieces.last()) > 1 {
            seq![stem_spec(pieces.last())]
        } else {
            Seq::empty()
        }
    }
}

/// `terms` without the stop words.
pub open spec fn drop_stop(terms: Seq<Seq<char>>) -> Seq<Seq<char>>
    decreases terms.len(),
{
    if terms.len() == 0 {
        Seq::empty()
    } else {
        drop_stop(terms.drop_last()) + if stop_words().contains(terms.last()) {
            Seq::empty()
        } else {
            seq![terms.last()]
        }
    }
}

/// The terms one word yields: its stem, then, for a hyphenated word, the stem of each of its
/// hyphen-separated parts longer than one byte.
pub open spec fn word_terms(w: Seq<char>) -> Seq<Seq<char>> {
    seq![stem_spec(w)] + if w.contains('-') {
        long_stems(split_at(w, hyphen()))
    } else {
        Seq::empty()
    }
}

/// The index terms of one piece of text between separators: none for a piece of at most one
/// byte, else its [`word_terms`] less the stop words.
pub open spec fn piece_terms(w: Seq<char>) -> Seq<Seq<char>> {
    if utf8_len(w) > 1 {
        drop_stop(word_terms(w))
    } else {
        Seq::empty()
    }
}

/// The index terms of `pieces`, in order.
pub open spec fn pieces_terms(pieces: Seq<Seq<char>>) -> Seq<Seq<char>>
    decreases pieces.len(),
{
    if pieces.len() == 0 {
        Seq::empty()
    } else {
        pieces_terms(pieces.drop_last()) + piece_terms(pieces.last())
    }
}

/// The index terms of a text: the terms of each of its words, in order.
pub open spec fn tokens_spec(s: Seq<char>) -> Seq<Seq<char>> {
    pieces_terms(split_at(s, word_separator()))
}

/// The character views of a list of character vectors.
pub open spec fn char_views(v: Seq<Vec<char>>) -> Seq<Seq<char>> {
    v.map_values(|x: Vec<char>| x@)
}

/// The character views of a list of strings.
pub open spec fn string_views(v: Seq<String>) -> Seq<Seq<char>> {
    v.map_values(|x: String| x@)
}

/// The words too common to index.
pub const STOP: [&'static str; 28] = ["the", "a", "an", "of", "to", "in", "is", "it", "and", "or", "for", "on", "how", "do", "i", "can", "what", "with", "my", "be", "are", "does", "make", "get", "use", "add", "want", "need"];

proof fn lemma_split_nonempty(s: Seq<char>, is_sep: spec_fn(char) -> bool)
    ensures
        split_at(s, is_sep).len() >= 1,
    decreases s.len(),
{
    if s.len() > 0 {
        lemma_split_nonempty(s.drop_last(), is_sep);
    }
}

/// Splitting one more character: a separator closes the current piece, anything else extends it.
proof fn lemma_split_push(s: Seq<char>, c: char, is_sep: spec_fn(char) -> bool)
    ensures
        split_at(s.push(c), is_sep) == if is_sep(c) {
            split_at(s, is_sep).push(Seq::empty())
        } else {
            split_at(s, is_sep).drop_last().push(split_at(s, is_sep).last().push(c))
        },
{
    lemma_split_nonempty(s, is_sep);
    assert(s.push(c).drop_last() =~= s);
    let p = split_at(s, is_sep);
    if !is_sep(c) {
        assert(p.update(p.len() - 1, p.last().push(c)) =~= p.drop_last().push(p.last().push(c)));
    }
}

proof fn lemma_drop_stop_push(ts: Seq<Seq<char>>, t: Seq<char>)
    ensures
        drop_stop(ts.push(t)) == drop_stop(ts) + if stop_words().contains(t) {
            Seq::<Seq<char>>::empty()
        } else {
            seq![t]
        },
{
    assert(ts.push(t).drop_last() =~= ts);
}

proof fn lemma_char_views_push(v: Seq<Vec<char>>, x: Vec<char>)
    ensures
        char_views(v.push(x)) == char_views(v).push(x@),
{
    assert(char_views(v.push(x)) =~= char_views(v).push(x@));
}

proof fn lemma_string_views_push(v: Seq<String>, x: String)
    ensures
        string_views(v.push(x)) == string_views(v).push(x@),
{
    assert(string_views(v.push(x)) =~= string_views(v).push(x@));
}

/// Whether `t` is a stop word.
fn is_stop(t: &Vec<char>) -> (r: bool)
    ensures
        r == stop_words().contains(t@),
{
    let mut i: usize = 0;
    proof {
        assert(STOP@.map_values(|w: &str| w@) =~= stop_words());
    }
    while i < 28
        invariant
            0 <= i <= 28,
            STOP@.map_values(|w: &str| w@) == stop_words(),
            forall|j: int| 0 <= j < i ==> stop_words()[j] != t@,
        decreases 28 - i,
    {
        if chars_eq_str(t, STOP[i]) {
            assert(stop_words()[i as int] == t@);
            return true;
        }
        i = i + 1;
    }
    proof {
        if stop_words().contains(t@) {
            let j = choose|j: int| 0 <= j < stop_words().len() && stop_words()[j] == t@;
            assert(false);
        }
    }
    false
}

/// The stem of the word `w`, as characters.
fn stem_of_chars(w: &Vec<char>) -> (r: Vec<char>)
    ensures
        r@ == stem_spec(w@),
{
    let ws = string_from_chars(w);
    let st = stem(ws.as_str());
    chars_of(st.as_str())
}

/// Pushes the index terms of the word `w` onto `out`.
fn push_piece_terms(w: &Vec<char>, out: &mut Vec<Vec<char>>)
    ensures
        char_views(final(out)@) == char_views(old(out)@) + piece_terms(w@),
{
    let ghost base = char_views(out@);
    if utf8_length(w) <= 1 {
        assert(char_views(out@) =~= base + piece_terms(w@));
        return;
    }
    // The whole word's stem, then the stems of its hyphen-separated parts.
    let first = stem_of_chars(w);
    let ghost mut terms: Seq<Seq<char>> = seq![first@];
    proof {
        lemma_drop_stop_push(Seq::empty(), first@);
        assert(Seq::<Seq<char>>::empty().push(first@) =~= terms);
        assert(drop_stop(Seq::<Seq<char>>::empty()) =~= Seq::<Seq<char>>::empty());
    }
    let ghost before = out@;
    let first_is_stop = is_stop(&first);
    if !first_is_stop {
        out.push(first);
        proof { lemma_char_views_push(before, first); }
    }
    assert(char_views(out@) =~= base + drop_stop(terms));
    let mut has_hyphen = false;
    let mut k: usize = 0;
    while k < w.len()
        invariant
            0 <= k <= w@.len(),
            has_hyphen == exists|j: int| 0 <= j < k && #[trigger] w@[j] == '-',
        decreases w@.len() - k,
    {
        if w[k] == '-' {
            has_hyphen = true;
        }
        k = k + 1;
    }
    proof {
        if has_hyphen {
            let j = choose|j: int| 0 <= j < w@.len() && #[trigger] w@[j] == '-';
            assert(w@.contains('-'));
        }
    }
    assert(w@.take(w@.len() as int) =~= w@);
    if !has_hyphen {
        assert(word_terms(w@) =~= terms);
        return;
    }
    let mut cur: Vec<char> = Vec::new();
    let ghost mut done: Seq<Seq<char>> = Seq::empty();
    let mut i: usize = 0;
    assert(split_at(w@.take(0), hyphen()) =~= done.push(cur@));
    while i < w.len()
        invariant
            0 <= i <= w@.len(),
            split_at(w@.take(i as int), hyphen()) == done.push(cur@),
            terms == seq![stem_spec(w@)] + long_stems(done),
            char_views(out@) == base + drop_stop(terms),
        decreases w@.len() - i,
    {
        let c = w[i];
        proof {
            lemma_split_push(w@.take(i as int), c, hyphen());
            assert(w@.take(i as int + 1) =~= w@.take(i as int).push(c));
        }
        if c == '-' {
            if utf8_length(&cur) > 1 {
                let st = stem_of_chars(&cur);
                proof {
                    assert((terms.push(st@)).drop_last() =~= terms);
                    assert(done.push(cur@).drop_last() =~= done);
                    assert(seq![stem_spec(w@)] + long_stems(done.push(cur@)) =~= terms.push(st@));
                    terms = terms.push(st@);
                }
                let ghost before = out@;
                let ghost prev_terms = terms.drop_last();
                proof { lemma_drop_stop_push(prev_terms, st@); assert(prev_terms.push(st@) =~= terms); }
                if !is_stop(&st) {
                    out.push(st);
                    proof { lemma_char_views_push(before, st); }
                }
                assert(char_views(out@) =~= base + drop_stop(terms));
            } else {
                proof {
                    assert(done.push(cur@).drop_last() =~= done);
                    assert(seq![stem_spec(w@)] + long_stems(done.push(cur@)) =~= terms);
                }
            }
            proof {
                done = done.push(cur@);
            }
            cur = Vec::new();
            assert(split_at(w@.take(i as int + 1), hyphen()) =~= done.push(cur@));
        } else {
            cur.push(c);
            assert(split_at(w@.take(i as int + 1), hyphen()) =~= done.push(cur@));
        }
        i = i + 1;
    }
    assert(w@.take(w@.len() as int) =~= w@);
    if utf8_length(&cur) > 1 {
        let st = stem_of_chars(&cur);
        proof {
            assert((terms.push(st@)).drop_last() =~= terms);
            assert(done.push(cur@).drop_last() =~= done);
            lemma_drop_stop_push(terms, st@);
            terms = terms.push(st@);
        }
        let ghost before = out@;
        if !is_stop(&st) {
            out.push(st);
            proof { lemma_char_views_push(before, st); }
        }
        assert(char_views(out@) =~= base + drop_stop(terms));
    } else {
        proof {
            assert(done.push(cur@).drop_last() =~= done);
        }
    }
    proof {
        assert(split_at(w@, hyphen()) == done.push(cur@));
        assert(terms =~= seq![stem_spec(w@)] + long_stems(split_at(w@, hyphen())));
        assert(terms == word_terms(w@));
    }
    assert(char_views(out@) =~= base + drop_stop(word_terms(w@)));
}

/// The index terms of the characters `s`.
pub fn tokens_of_chars(s: &Vec<char>) -> (r: Vec<Vec<char>>)
    ensures
        char_views(r@) == tokens_spec(s@),
{
    let mut out: Vec<Vec<char>> = Vec::new();
    let mut cur: Vec<char> = Vec::new();
    let ghost mut done: Seq<Seq<char>> = Seq::empty();
    let mut i: usize = 0;
    assert(split_at(s@.take(0), word_separator()) =~= done.push(cur@));
    assert(char_views(out@) =~= pieces_terms(done));
    while i < s.len()
        invariant
            0 <= i <= s@.len(),
            split_at(s@.take(i as int), word_separator()) == done.push(cur@),
            char_views(out@) == pieces_terms(done),
        decreases s@.len() - i,
    {
        let c = s[i];
        proof {
            lemma_split_push(s@.take(i as int), c, word_separator());
            assert(s@.take(i as int + 1) =~= s@.take(i as int).push(c));
        }
        if !(is_alphanumeric(c) || c == '-') {
            push_piece_terms(&cur, &mut out);
            proof {
                assert(done.push(cur@).drop_last() =~= done);
                done = done.push(cur@);
            }
            cur = Vec::new();
        } else {
            cur.push(c);
        }
        assert(split_at(s@.take(i as int + 1), word_separator()) =~= done.push(cur@));
        i = i + 1;
    }
    assert(s@.take(s@.len() as int) =~= s@);
    push_piece_terms(&cur, &mut out);
    proof {
        assert(done.push(cur@).drop_last() =~= done);
    }
    out
}

/// Turns character vectors into strings.
fn to_strings(v: &Vec<Vec<char>>) -> (r: Vec<String>)
    ensures
        string_views(r@) == char_views(v@),
{
    let mut r: Vec<String> = Vec::new();
    let mut i: usize = 0;
    while i < v.len()
        invariant
            0 <= i <= v@.len(),
            string_views(r@) == char_views(v@.take(i as int)),
        decreases v@.len() - i,
    {
        let ghost before = r@;
        let st = string_from_chars(&v[i]);
        r.push(st);
        proof {
            lemma_string_views_push(before, st);
            assert(v@.take(i + 1) =~= v@.take(i as int).push(v@[i as int]));
            lemma_char_views_push(v@.take(i as int), v@[i as int]);
        }
        i = i + 1;
    }
    assert(v@.take(v@.len() as int) =~= v@);
    r
}

/// The index terms of `s`: its words (runs of letters, digits and `-`) longer than one byte,
/// each stemmed, a hyphenated word followed by its stemmed parts, stop words left out.
pub fn tokens(s: &str) -> (r: Vec<String>)
    ensures
        string_views(r@) == tokens_spec(s@),
{
    let cs = chars_of(s);
    let t = tokens_of_chars(&cs);
    to_strings(&t)
}

/// `s` with every `_` replaced by a space.
pub open spec fn underscores_to_spaces(s: Seq<char>) -> Seq<char> {
    s.map_values(|c: char| if c == '_' { ' ' } else { c })
}

/// [`tokens`] of `s` with underscores read as spaces, so `chair_folding` gives `chair` and
/// `folding`.
pub fn tokens_snake(s: &str) -> (r: Vec<String>)
    ensures
        string_views(r@) == tokens_spec(underscores_to_spaces(s@)),
{
    let cs = chars_of(s);
    let mut spaced: Vec<char> = Vec::new();
    let mut i: usize = 0;
    while i < cs.len()
        invariant
            0 <= i <= cs@.len(),
            cs@ == s@,
            spaced@ == underscores_to_spaces(s@.take(i as int)),
        decreases cs@.len() - i,
    {
        spaced.push(if cs[i] == '_' { ' ' } else { cs[i] });
        i = i + 1;
        assert(spaced@ =~= underscores_to_spaces(s@.take(i as int)));
    }
    assert(s@.take(s@.len() as int) =~= s@);
    let t = tokens_of_chars(&spaced);
    to_strings(&t)
}


// ---------------------------------------------------------------------------------------------
// Documents and markdown chunking
// ---------------------------------------------------------------------------------------------

/// One searchable fragment: kind, title, body, where to read more, and boosted tokens.
pub struct Doc {
    pub kind: &'static str,
    pub title: String,
    pub body: String,
    /// Where to read more (file:line, or a command to run).
    pub loc: String,
    /// Tokens weighted 3x (tags, names).
    pub extra: String,
}

/// A [`Doc`] as character sequences.
pub struct DocView {
    pub kind: Seq<char>,
    pub title: Seq<char>,
    pub body: Seq<char>,
    pub loc: Seq<char>,
    pub extra: Seq<char>,
}

impl View for Doc {
    type V = DocView;

    open spec fn view(&self) -> DocView {
        DocView { kind: self.kind@, title: self.title@, body: self.body@, loc: self.loc@, extra: self.extra@ }
    }
}

/// The views of a list of documents.
pub open spec fn doc_views(docs: Seq<Doc>) -> Seq<DocView> {
    docs.map_values(|d: Doc| d@)
}

/// The line break.
pub open spec fn newline() -> spec_fn(char) -> bool {
    |c: char| c == '\n'
}

/// A line without the carriage return that ended it, if any.
pub open spec fn strip_cr(l: Seq<char>) -> Seq<char> {
    if l.len() > 0 && l.last() == '\r' { l.drop_last() } else { l }
}

/// The lines of a text (`str::lines`): split at `\n`, each line that a `\n` ended without a
/// `\r` before it, and no empty last line after a final line break.
pub open spec fn lines_spec(t: Seq<char>) -> Seq<Seq<char>> {
    let ps = split_at(t, newline());
    let ended = ps.drop_last().map_values(|l: Seq<char>| strip_cr(l));
    if ps.last().len() == 0 {
        ended
    } else {
        ended.push(ps.last())
    }
}

/// `ls` joined with `\n` between them.
pub open spec fn join_lines(ls: Seq<Seq<char>>) -> Seq<char>
    decreases ls.len(),
{
    if ls.len() == 0 {
        Seq::empty()
    } else if ls.len() == 1 {
        ls[0]
    } else {
        join_lines(ls.drop_last()).push('\n') + ls.last()
    }
}

/// The decimal digits of `n`.
pub open spec fn decimal_spec(n: nat) -> Seq<char>
    decreases n,
{
    if n < 10 {
        seq![((n + 48) as u8) as char]
    } else {
        decimal_spec(n / 10).push((((n % 10) + 48) as u8) as char)
    }
}

/// How many `#`s a line starts with.
pub open spec fn leading_hashes(l: Seq<char>) -> nat
    decreases l.len(),
{
    if l.len() > 0 && l[0] == '#' {
        1 + leading_hashes(l.drop_first())
    } else {
        0
    }
}

/// Whether a markdown line opens a section: it starts with `#` but not `#!`.
pub open spec fn is_heading(l: Seq<char>) -> bool {
    l.len() > 0 && l[0] == '#' && !(l.len() > 1 && l[1] == '!')
}

/// A heading's title: the line without its leading `#`s and surrounding white space.
pub open spec fn heading_title(l: Seq<char>) -> Seq<char> {
    trim_spec(l.subrange(leading_hashes(l) as int, l.len() as int))
}

/// Whether every line of `sec` is blank (empty or white space only).
pub open spec fn all_blank(sec: Seq<Seq<char>>) -> bool {
    forall|i: int| 0 <= i < sec.len() ==> trim_spec(#[trigger] sec[i]).len() == 0
}

/// The section `sec` (starting at 0-based line `start` of `file`) cut into documents of at most
/// 28 lines: the first `k` of them.
pub open spec fn section_chunks(file: Seq<char>, kind: Seq<char>, heading: Seq<char>, start: int, sec: Seq<Seq<char>>, k: int) -> Seq<DocView>
    decreases k,
{
    if k <= 0 {
        Seq::empty()
    } else {
        let from = 28 * (k - 1);
        let to = if 28 * k < sec.len() { 28 * k } else { sec.len() as int };
        section_chunks(file, kind, heading, start, sec, k - 1).push(
            DocView {
                kind,
                title: heading,
                body: join_lines(sec.subrange(from, to)),
                loc: file.push(':') + decimal_spec((start + from + 1) as nat),
                extra: Seq::empty(),
            },
        )
    }
}

/// The documents one section makes: none if it is blank, else its 28-line chunks.
pub open spec fn section_docs(file: Seq<char>, kind: Seq<char>, heading: Seq<char>, start: int, sec: Seq<Seq<char>>) -> Seq<DocView> {
    if all_blank(sec) {
        Seq::empty()
    } else {
        section_chunks(file, kind, heading, start, sec, ((sec.len() + 27) / 28) as int)
    }
}

/// The state after reading the first `i` lines of a markdown file: the documents of the sections
/// closed so far, and the open section's heading, first line and lines.
pub open spec fn markdown_walk(file: Seq<char>, kind: Seq<char>, ls: Seq<Seq<char>>, i: int) -> (Seq<DocView>, Seq<char>, int, Seq<Seq<char>>)
    decreases i,
{
    if i <= 0 {
        (Seq::empty(), "(top)"@, 0, Seq::empty())
    } else {
        let (docs, heading, start, sec) = markdown_walk(file, kind, ls, i - 1);
        let l = ls[i - 1];
        if is_heading(l) {
            (docs + section_docs(file, kind, heading, start, sec), heading_title(l), i - 1, seq![l])
        } else {
            (docs, heading, start, sec.push(l))
        }
    }
}

/// The documents a markdown text is cut into: one section per heading (the text before the first
/// heading is the section `(top)`), each cut into chunks of at most 28 lines titled by its
/// heading and located at `file:line` of its first line; blank sections make none.
pub open spec fn markdown_docs(file: Seq<char>, kind: Seq<char>, text: Seq<char>) -> Seq<DocView> {
    let ls = lines_spec(text);
    let (docs, heading, start, sec) = markdown_walk(file, kind, ls, ls.len() as int);
    docs + section_docs(file, kind, heading, start, sec)
}


/// Appends the characters `s` to `r`.
fn extend_chars(r: &mut Vec<char>, s: &Vec<char>)
    ensures
        final(r)@ == old(r)@ + s@,
{
    let ghost r0 = r@;
    let mut i: usize = 0;
    while i < s.len()
        invariant
            0 <= i <= s@.len(),
            r@ == r0 + s@.take(i as int),
        decreases s@.len() - i,
    {
        r.push(s[i]);
        i = i + 1;
        assert(r@ =~= r0 + s@.take(i as int));
    }
    assert(s@.take(s@.len() as int) =~= s@);
}

/// The lines of the text `t` (see [`lines_spec`]).
fn lines_of(t: &Vec<char>) -> (r: Vec<Vec<char>>)
    ensures
        char_views(r@) == lines_spec(t@),
        r@.len() <= t@.len(),
{
    let mut out: Vec<Vec<char>> = Vec::new();
    let mut cur: Vec<char> = Vec::new();
    let ghost mut done: Seq<Seq<char>> = Seq::empty();
    let mut i: usize = 0;
    assert(split_at(t@.take(0), newline()) =~= done.push(cur@));
    assert(char_views(out@) =~= done.map_values(|l: Seq<char>| strip_cr(l)));
    while i < t.len()
        invariant
            0 <= i <= t@.len(),
            split_at(t@.take(i as int), newline()) == done.push(cur@),
            char_views(out@) == done.map_values(|l: Seq<char>| strip_cr(l)),
            out@.len() + cur@.len() <= i,
        decreases t@.len() - i,
    {
        let c = t[i];
        proof {
            lemma_split_push(t@.take(i as int), c, newline());
            assert(t@.take(i as int + 1) =~= t@.take(i as int).push(c));
        }
        if c == '\n' {
            let ghost whole = cur@;
            let mut line = cur;
            if line.len() > 0 && line[line.len() - 1] == '\r' {
                line.pop();
                assert(line@ =~= whole.drop_last());
            }
            let ghost before = out@;
            out.push(line);
            proof {
                lemma_char_views_push(before, line);
                assert(done.push(whole).map_values(|l: Seq<char>| strip_cr(l)) =~= done.map_values(|l: Seq<char>| strip_cr(l)).push(strip_cr(whole)));
                done = done.push(whole);
            }
            cur = Vec::new();
        } else {
            cur.push(c);
        }
        assert(split_at(t@.take(i as int + 1), newline()) =~= done.push(cur@));
        i = i + 1;
    }
    assert(t@.take(t@.len() as int) =~= t@);
    proof {
        let ps = split_at(t@, newline());
        assert(ps.drop_last() =~= done);
        assert(ps.last() == cur@);
    }
    if cur.len() > 0 {
        let ghost before = out@;
        out.push(cur);
        proof { lemma_char_views_push(before, cur); }
    }
    out
}

/// The lines `ls[from..to]` joined with line breaks.
fn join_range(ls: &Vec<Vec<char>>, from: usize, to: usize) -> (r: Vec<char>)
    requires
        from <= to <= ls@.len(),
    ensures
        r@ == join_lines(char_views(ls@).subrange(from as int, to as int)),
{
    let ghost v = char_views(ls@);
    let mut r: Vec<char> = Vec::new();
    let mut k = from;
    assert(v.subrange(from as int, from as int) =~= Seq::<Seq<char>>::empty());
    while k < to
        invariant
            from <= k <= to,
            to <= ls@.len(),
            v == char_views(ls@),
            r@ == join_lines(v.subrange(from as int, k as int)),
        decreases to - k,
    {
        proof {
            assert(v.subrange(from as int, k + 1).drop_last() =~= v.subrange(from as int, k as int));
            assert(v.subrange(from as int, k + 1).last() == ls@[k as int]@);
        }
        if k > from {
            r.push('\n');
        } else {
            assert(v.subrange(from as int, k + 1) =~= seq![ls@[k as int]@]);
        }
        extend_chars(&mut r, &ls[k]);
        k = k + 1;
    }
    r
}

/// The decimal digits of `n`.
fn decimal(n: usize) -> (r: Vec<char>)
    ensures
        r@ == decimal_spec(n as nat),
    decreases n,
{
    let d = ((n % 10) as u8 + 48) as char;
    if n < 10 {
        let mut r: Vec<char> = Vec::new();
        r.push(d);
        assert(r@ =~= decimal_spec(n as nat));
        r
    } else {
        let mut r = decimal(n / 10);
        r.push(d);
        r
    }
}

/// A heading's title (see [`heading_title`]).
fn heading_title_of(l: &Vec<char>) -> (r: Vec<char>)
    ensures
        r@ == heading_title(l@),
{
    let mut i: usize = 0;
    assert(l@.subrange(0, l@.len() as int) =~= l@);
    while i < l.len() && l[i] == '#'
        invariant
            0 <= i <= l@.len(),
            forall|j: int| 0 <= j < i ==> #[trigger] l@[j] == '#',
            leading_hashes(l@) == i + leading_hashes(l@.subrange(i as int, l@.len() as int)),
        decreases l@.len() - i,
    {
        proof {
            let rest = l@.subrange(i as int, l@.len() as int);
            assert(rest.drop_first() =~= l@.subrange(i + 1, l@.len() as int));
        }
        i = i + 1;
    }
    proof {
        assert(l@.subrange(0, l@.len() as int) =~= l@);
        let rest = l@.subrange(i as int, l@.len() as int);
        assert(leading_hashes(rest) == 0);
    }
    let rest = crate::text::sub_chars(l, i, l.len());
    trim(&rest)
}

/// Whether every line of `sec` is blank.
fn all_blank_exec(sec: &Vec<Vec<char>>) -> (r: bool)
    ensures
        r == all_blank(char_views(sec@)),
{
    let mut i: usize = 0;
    while i < sec.len()
        invariant
            0 <= i <= sec@.len(),
            forall|j: int| 0 <= j < i ==> trim_spec(#[trigger] char_views(sec@)[j]).len() == 0,
        decreases sec@.len() - i,
    {
        if trim(&sec[i]).len() != 0 {
            assert(char_views(sec@)[i as int] == sec@[i as int]@);
            return false;
        }
        i = i + 1;
    }
    true
}

proof fn lemma_doc_views_push(v: Seq<Doc>, d: Doc)
    ensures
        doc_views(v.push(d)) == doc_views(v).push(d@),
{
    assert(doc_views(v.push(d)) =~= doc_views(v).push(d@));
}

/// Pushes the documents of one section (see [`section_docs`]) onto `out`.
fn push_section_docs(file: &Vec<char>, kind: &'static str, heading: &Vec<char>, start: usize, sec: &Vec<Vec<char>>, out: &mut Vec<Doc>)
    requires
        start + sec@.len() + 28 <= usize::MAX,
    ensures
        doc_views(final(out)@) == doc_views(old(out)@) + section_docs(file@, kind@, heading@, start as int, char_views(sec@)),
{
    let ghost base = doc_views(out@);
    let ghost sv = char_views(sec@);
    if all_blank_exec(sec) {
        assert(doc_views(out@) =~= base + section_docs(file@, kind@, heading@, start as int, sv));
        return;
    }
    let n = (sec.len() + 27) / 28;
    let mut k: usize = 0;
    assert(doc_views(out@) =~= base + section_chunks(file@, kind@, heading@, start as int, sv, 0));
    while k < n
        invariant
            0 <= k <= n,
            n == (sec@.len() + 27) / 28,
            start + sec@.len() + 28 <= usize::MAX,
            sv == char_views(sec@),
            doc_views(out@) == base + section_chunks(file@, kind@, heading@, start as int, sv, k as int),
        decreases n - k,
    {
        assert(28 * k < sec@.len() + 28) by (nonlinear_arith)
            requires k < n, n == (sec@.len() + 27) / 28;
        let from = 28 * k;
        let to = if 28 * (k + 1) < sec.len() { 28 * (k + 1) } else { sec.len() };
        assert(from <= to) by (nonlinear_arith)
            requires k < n, n == (sec@.len() + 27) / 28, from == 28 * k, to == if 28 * (k + 1) < sec@.len() { 28 * (k + 1) } else { sec@.len() as int };
        let body = join_range(sec, from, to);
        let mut loc = crate::text::sub_chars(file, 0, file.len());
        assert(loc@ =~= file@);
        loc.push(':');
        let digits = decimal(start + from + 1);
        extend_chars(&mut loc, &digits);
        let doc = Doc {
            kind,
            title: string_from_chars(heading),
            body: string_from_chars(&body),
            loc: string_from_chars(&loc),
            extra: string_from_chars(&Vec::new()),
        };
        let ghost before = out@;
        out.push(doc);
        proof {
            lemma_doc_views_push(before, doc);
            assert(doc@.extra =~= Seq::<char>::empty());
        }
        k = k + 1;
    }
}

/// Cuts a markdown `text` into one [`Doc`] per section (see [`markdown_docs`]) and appends them
/// to `out`.
pub fn chunk_markdown(file: &str, kind: &'static str, text: &str, out: &mut Vec<Doc>)
    requires
        text@.len() + 28 <= usize::MAX,
    ensures
        doc_views(final(out)@) == doc_views(old(out)@) + markdown_docs(file@, kind@, text@),
{
    let ghost base = doc_views(out@);
    let fv = chars_of(file);
    let tv = chars_of(text);
    let lines = lines_of(&tv);
    let ghost ls = char_views(lines@);
    let mut heading = chars_of("(top)");
    let mut start: usize = 0;
    let mut sec: Vec<Vec<char>> = Vec::new();
    let mut i: usize = 0;
    proof {
        assert(char_views(sec@) =~= Seq::<Seq<char>>::empty());
        assert(doc_views(out@) =~= base + Seq::<DocView>::empty());
    }
    while i < lines.len()
        invariant
            0 <= i <= lines@.len(),
            lines@.len() + 28 <= usize::MAX,
            ls == char_views(lines@),
            fv@ == file@,
            start + sec@.len() == i,
            ({
                let (docs, h, st, se) = markdown_walk(file@, kind@, ls, i as int);
                &&& doc_views(out@) == base + docs
                &&& heading@ == h
                &&& start == st
                &&& char_views(sec@) == se
            }),
        decreases lines@.len() - i,
    {
        let l = &lines[i];
        proof {
            assert(ls[i as int] == l@);
        }
        if l.len() > 0 && l[0] == '#' && !(l.len() > 1 && l[1] == '!') {
            let ghost before = doc_views(out@);
            push_section_docs(&fv, kind, &heading, start, &sec, out);
            proof {
                let (docs, h, st, se) = markdown_walk(file@, kind@, ls, i as int);
                assert(doc_views(out@) =~= base + (docs + section_docs(file@, kind@, h, st, se)));
            }
            heading = heading_title_of(l);
            start = i;
            sec = Vec::new();
            let lc = crate::text::sub_chars(l, 0, l.len());
            assert(lc@ =~= l@);
            let ghost sb = sec@;
            sec.push(lc);
            proof {
                lemma_char_views_push(sb, lc);
                assert(char_views(sec@) =~= seq![l@]);
            }
        } else {
            let lc = crate::text::sub_chars(l, 0, l.len());
            assert(lc@ =~= l@);
            let ghost sb = sec@;
            sec.push(lc);
            proof { lemma_char_views_push(sb, lc); }
        }
        i = i + 1;
    }
    proof {
        assert(ls == lines_spec(text@));
    }
    push_section_docs(&fv, kind, &heading, start, &sec, out);
    proof {
        let (docs, h, st, se) = markdown_walk(file@, kind@, ls, ls.len() as int);
        assert(doc_views(out@) =~= base + (docs + section_docs(file@, kind@, h, st, se)));
    }
}


// ---------------------------------------------------------------------------------------------
// Query expansion
// ---------------------------------------------------------------------------------------------

/// The synonym table: a word, and the words a query containing it also looks for.
pub const SYNONYMS: [(&'static str, &'static str); 35] = [
    ("collide", "collision collider blocks block solid"),
    ("collision", "collide collider blocks solid walk-through"),
    ("block", "collision collider solid"),
    ("stair", "stairs staircase steps rise run landing"),
    ("door", "doorway opening header"),
    ("window", "opening glass sill"),
    ("light", "lamp lights point sun ambient shadow"),
    ("lamp", "light point"),
    ("floor", "slab ground plane level upstairs"),
    ("upstairs", "floor slab stairs level"),
    ("template", "prefab prefabs"),
    ("reusable", "prefab prefabs"),
    ("wall", "walls opening thickness"),
    ("fence", "perimeter gate posts leak"),
    ("fall", "drop railing"),
    ("stuck", "unreachable walk blocked"),
    ("reach", "reachable unreachable walk"),
    ("spawn", "camera start player"),
    ("color", "material hex emissive"),
    ("glow", "emissive light"),
    ("sound", "audio"),
    ("size", "dimensions bounds"),
    ("furniture", "prop prefab chair table sofa"),
    ("test", "verify checks golden"),
    ("screenshot", "frame tour plan render view"),
    ("picture", "frame tour plan render view png"),
    ("image", "frame tour plan render png"),
    ("place", "position add move"),
    ("delete", "rm remove"),
    ("copy", "clone array duplicate"),
    ("random", "scatter seed"),
    ("tree", "scatter landscaping plant"),
    ("room", "zone wall floor"),
    ("map", "scene json level"),
    ("level", "map scene floor")
];

/// [`SYNONYMS`] as character sequences.
pub open spec fn synonym_table() -> Seq<(Seq<char>, Seq<char>)> {
    seq![
        ("collide"@, "collision collider blocks block solid"@),
        ("collision"@, "collide collider blocks solid walk-through"@),
        ("block"@, "collision collider solid"@),
        ("stair"@, "stairs staircase steps rise run landing"@),
        ("door"@, "doorway opening header"@),
        ("window"@, "opening glass sill"@),
        ("light"@, "lamp lights point sun ambient shadow"@),
        ("lamp"@, "light point"@),
        ("floor"@, "slab ground plane level upstairs"@),
        ("upstairs"@, "floor slab stairs level"@),
        ("template"@, "prefab prefabs"@),
        ("reusable"@, "prefab prefabs"@),
        ("wall"@, "walls opening thickness"@),
        ("fence"@, "perimeter gate posts leak"@),
        ("fall"@, "drop railing"@),
        ("stuck"@, "unreachable walk blocked"@),
        ("reach"@, "reachable unreachable walk"@),
        ("spawn"@, "camera start player"@),
        ("color"@, "material hex emissive"@),
        ("glow"@, "emissive light"@),
        ("sound"@, "audio"@),
        ("size"@, "dimensions bounds"@),
        ("furniture"@, "prop prefab chair table sofa"@),
        ("test"@, "verify checks golden"@),
        ("screenshot"@, "frame tour plan render view"@),
        ("picture"@, "frame tour plan render view png"@),
        ("image"@, "frame tour plan render png"@),
        ("place"@, "position add move"@),
        ("delete"@, "rm remove"@),
        ("copy"@, "clone array duplicate"@),
        ("random"@, "scatter seed"@),
        ("tree"@, "scatter landscaping plant"@),
        ("room"@, "zone wall floor"@),
        ("map"@, "scene json level"@),
        ("level"@, "map scene floor"@)
    ]
}

/// The synonym terms the query term `t` brings in from the first `n` table entries: for each
/// entry whose word stems to `t`, the index terms of its synonyms.
pub open spec fn synonym_terms(t: Seq<char>, n: int) -> Seq<Seq<char>>
    decreases n,
{
    if n <= 0 {
        Seq::empty()
    } else {
        let (word, syns) = synonym_table()[n - 1];
        synonym_terms(t, n - 1) + if stem_spec(word) == t {
            tokens_spec(underscores_to_spaces(syns))
        } else {
            Seq::empty()
        }
    }
}

/// The weighted terms of the query terms `ts`: each term itself (`true`), followed by its
/// synonyms' terms (`false`).
pub open spec fn expand_terms(ts: Seq<Seq<char>>) -> Seq<(Seq<char>, bool)>
    decreases ts.len(),
{
    if ts.len() == 0 {
        Seq::empty()
    } else {
        let t = ts.last();
        expand_terms(ts.drop_last()) + seq![(t, true)] + synonym_terms(t, 35).map_values(|s: Seq<char>| (s, false))
    }
}

/// What [`expand`] makes of a query.
pub open spec fn expand_spec(query: Seq<char>) -> Seq<(Seq<char>, bool)> {
    expand_terms(tokens_spec(underscores_to_spaces(query)))
}

/// The views of a list of weighted terms.
pub open spec fn term_views(v: Seq<(String, bool)>) -> Seq<(Seq<char>, bool)> {
    v.map_values(|x: (String, bool)| (x.0@, x.1))
}

/// Whether two strings hold the same characters.
fn strings_eq(a: &String, b: &String) -> (r: bool)
    ensures
        r == (a@ == b@),
{
    crate::text::str_eq(a.as_str(), b.as_str())
}

proof fn lemma_term_views_push(v: Seq<(String, bool)>, x: (String, bool))
    ensures
        term_views(v.push(x)) == term_views(v).push((x.0@, x.1)),
{
    assert(term_views(v.push(x)) =~= term_views(v).push((x.0@, x.1)));
}

/// Appends `terms`, marked as synonyms, to `out`.
fn push_synonyms(terms: Vec<String>, out: &mut Vec<(String, bool)>)
    ensures
        term_views(final(out)@) == term_views(old(out)@) + string_views(terms@).map_values(|s: Seq<char>| (s, false)),
{
    let ghost base = term_views(out@);
    let ghost tv = string_views(terms@);
    let mut i: usize = 0;
    let n = terms.len();
    let mut rest = terms;
    let mut buf: Vec<String> = Vec::new();
    // Take the terms out in reverse and put them back in order.
    while rest.len() > 0
        invariant
            rest@.len() + buf@.len() == n,
            n == tv.len(),
            forall|j: int| 0 <= j < rest@.len() ==> #[trigger] rest@[j]@ == tv[j],
            forall|j: int| 0 <= j < buf@.len() ==> #[trigger] buf@[j]@ == tv[n - 1 - j],
        decreases rest@.len(),
    {
        let t = rest.pop().unwrap();
        buf.push(t);
    }
    assert(term_views(out@) =~= base + tv.take(0).map_values(|s: Seq<char>| (s, false)));
    while buf.len() > 0
        invariant
            i + buf@.len() == n,
            n == tv.len(),
            forall|j: int| 0 <= j < buf@.len() ==> #[trigger] buf@[j]@ == tv[n - 1 - j],
            term_views(out@) == base + tv.take(i as int).map_values(|s: Seq<char>| (s, false)),
        decreases buf@.len(),
    {
        let t = buf.pop().unwrap();
        assert(t@ == tv[i as int]);
        let ghost before = out@;
        let ghost tt = t@;
        out.push((t, false));
        proof {
            lemma_term_views_push(before, (t, false));
            assert(tv.take(i + 1).map_values(|s: Seq<char>| (s, false)) =~= tv.take(i as int).map_values(|s: Seq<char>| (s, false)).push((tt, false)));
        }
        i = i + 1;
    }
    assert(tv.take(n as int) =~= tv);
}

/// Expands a query into weighted terms: each of its index terms (`true`, full weight), each
/// followed by the index terms of the synonyms listed for it (`false`, reduced weight).
pub fn expand(query: &str) -> (r: Vec<(String, bool)>)
    ensures
        term_views(r@) == expand_spec(query@),
{
    let qt = tokens_snake(query);
    let ghost qv = string_views(qt@);
    let mut out: Vec<(String, bool)> = Vec::new();
    let mut i: usize = 0;
    proof {
        assert(SYNONYMS@.map_values(|e: (&'static str, &'static str)| (e.0@, e.1@)) =~= synonym_table());
    }
    while i < qt.len()
        invariant
            0 <= i <= qt@.len(),
            qv == string_views(qt@),
            SYNONYMS@.map_values(|e: (&'static str, &'static str)| (e.0@, e.1@)) == synonym_table(),
            term_views(out@) == expand_terms(qv.take(i as int)),
        decreases qt@.len() - i,
    {
        let t = &qt[i];
        let ghost before = out@;
        let tc = chars_of(t.as_str());
        out.push((string_from_chars(&tc), true));
        proof {
            lemma_term_views_push(before, out@.last());
            assert(qv[i as int] == t@);
        }
        let ghost after_self = term_views(out@);
        let mut k: usize = 0;
        while k < 35
            invariant
                0 <= k <= 35,
                SYNONYMS@.map_values(|e: (&'static str, &'static str)| (e.0@, e.1@)) == synonym_table(),
                term_views(out@) == after_self + synonym_terms(t@, k as int).map_values(|s: Seq<char>| (s, false)),
            decreases 35 - k,
        {
            let (word, syns) = SYNONYMS[k];
            proof {
                assert(synonym_table()[k as int] == (word@, syns@));
            }
            let sw = stem(word);
            if strings_eq(&sw, t) {
                let extra = tokens_snake(syns);
                let ghost mid = term_views(out@);
                push_synonyms(extra, &mut out);
                proof {
                    assert(synonym_terms(t@, k + 1) == synonym_terms(t@, k as int) + tokens_spec(underscores_to_spaces(syns@)));
                    assert(synonym_terms(t@, k + 1).map_values(|s: Seq<char>| (s, false)) =~= synonym_terms(t@, k as int).map_values(|s: Seq<char>| (s, false)) + tokens_spec(underscores_to_spaces(syns@)).map_values(|s: Seq<char>| (s, false)));
                }
            } else {
                proof {
                    assert(synonym_terms(t@, k + 1) =~= synonym_terms(t@, k as int));
                }
            }
            k = k + 1;
        }
        proof {
            assert(qv.take(i + 1).drop_last() =~= qv.take(i as int));
            assert(qv.take(i + 1).last() == t@);
        }
        i = i + 1;
    }
    assert(qv.take(qv.len() as int) =~= qv);
    out
}


// ---------------------------------------------------------------------------------------------
// Term statistics, choosing hits, printing them
// ---------------------------------------------------------------------------------------------

/// How many of `ts` equal `t`.
pub open spec fn occurrences(ts: Seq<Seq<char>>, t: Seq<char>) -> nat
    decreases ts.len(),
{
    if ts.len() == 0 {
        0
    } else {
        occurrences(ts.drop_last(), t) + if ts.last() == t { 1nat } else { 0nat }
    }
}

/// How many times the term `term` occurs in `toks` (a term frequency).
pub fn term_count(toks: &Vec<String>, term: &String) -> (r: usize)
    ensures
        r == occurrences(string_views(toks@), term@),
{
    let ghost tv = string_views(toks@);
    let mut n: usize = 0;
    let mut i: usize = 0;
    while i < toks.len()
        invariant
            0 <= i <= toks@.len(),
            tv == string_views(toks@),
            n == occurrences(tv.take(i as int), term@),
            n <= i,
        decreases toks@.len() - i,
    {
        assert(tv.take(i + 1).drop_last() =~= tv.take(i as int));
        if strings_eq(&toks[i], term) {
            n = n + 1;
        }
        i = i + 1;
    }
    assert(tv.take(tv.len() as int) =~= tv);
    n
}

/// The token lists (title, body, extra) of each document.
pub type DocTokens = (Vec<String>, Vec<String>, Vec<String>);

/// Whether `t` is among any of a document's three token lists.
pub open spec fn doc_has_term(d: (Seq<Seq<char>>, Seq<Seq<char>>, Seq<Seq<char>>), t: Seq<char>) -> bool {
    d.0.contains(t) || d.1.contains(t) || d.2.contains(t)
}

/// How many of `docs` hold `t` (a document frequency).
pub open spec fn doc_count(docs: Seq<(Seq<Seq<char>>, Seq<Seq<char>>, Seq<Seq<char>>)>, t: Seq<char>) -> nat
    decreases docs.len(),
{
    if docs.len() == 0 {
        0
    } else {
        doc_count(docs.drop_last(), t) + if doc_has_term(docs.last(), t) { 1nat } else { 0nat }
    }
}

/// The views of a list of document token lists.
pub open spec fn doc_token_views(docs: Seq<DocTokens>) -> Seq<(Seq<Seq<char>>, Seq<Seq<char>>, Seq<Seq<char>>)> {
    docs.map_values(|d: DocTokens| (string_views(d.0@), string_views(d.1@), string_views(d.2@)))
}

/// Whether `t` is in `toks`.
fn has_term(toks: &Vec<String>, t: &String) -> (r: bool)
    ensures
        r == string_views(toks@).contains(t@),
{
    let ghost tv = string_views(toks@);
    let mut i: usize = 0;
    while i < toks.len()
        invariant
            0 <= i <= toks@.len(),
            tv == string_views(toks@),
            forall|j: int| 0 <= j < i ==> tv[j] != t@,
        decreases toks@.len() - i,
    {
        if strings_eq(&toks[i], t) {
            assert(tv[i as int] == t@);
            return true;
        }
        i = i + 1;
    }
    false
}

/// How many documents hold the term `t` in their title, body or extra tokens.
pub fn doc_frequency(docs: &Vec<DocTokens>, t: &String) -> (r: usize)
    ensures
        r == doc_count(doc_token_views(docs@), t@),
{
    let ghost dv = doc_token_views(docs@);
    let mut n: usize = 0;
    let mut i: usize = 0;
    while i < docs.len()
        invariant
            0 <= i <= docs@.len(),
            dv == doc_token_views(docs@),
            n == doc_count(dv.take(i as int), t@),
            n <= i,
        decreases docs@.len() - i,
    {
        assert(dv.take(i + 1).drop_last() =~= dv.take(i as int));
        let d = &docs[i];
        if has_term(&d.0, t) || has_term(&d.1, t) || has_term(&d.2, t) {
            n = n + 1;
        }
        i = i + 1;
    }
    assert(dv.take(dv.len() as int) =~= dv);
    n
}

/// Whether a document of kind `k` with tokens `d` can be a hit for the terms `terms`: its kind is
/// the one asked for (if any), and it holds at least one of the terms.
pub open spec fn doc_matches(
    d: (Seq<Seq<char>>, Seq<Seq<char>>, Seq<Seq<char>>),
    k: Seq<char>,
    terms: Seq<Seq<char>>,
    kind: Option<Seq<char>>,
) -> bool {
    &&& (kind is None || kind == Some(k))
    &&& exists|j: int| 0 <= j < terms.len() && doc_has_term(d, #[trigger] terms[j])
}

/// The numbers, in order, of the documents that can be hits (see [`doc_matches`]).
pub open spec fn matching_spec(
    docs: Seq<(Seq<Seq<char>>, Seq<Seq<char>>, Seq<Seq<char>>)>,
    kinds: Seq<Seq<char>>,
    terms: Seq<Seq<char>>,
    kind: Option<Seq<char>>,
) -> Seq<usize>
    decreases docs.len(),
{
    if docs.len() == 0 {
        Seq::empty()
    } else {
        let i = docs.len() - 1;
        matching_spec(docs.drop_last(), kinds, terms, kind) + if doc_matches(docs.last(), kinds[i], terms, kind) {
            seq![i as usize]
        } else {
            Seq::empty()
        }
    }
}

/// The documents that can be hits for the query terms `terms` (every expanded term, whatever its
/// weight): those of kind `kind`, if one is asked for, that hold at least one of the terms in
/// their title, body or boosted tokens. These are exactly the documents a search scores above
/// zero. Returns their numbers, in order.
pub fn matching(toks: &Vec<DocTokens>, kinds: &Vec<&str>, terms: &Vec<String>, kind: Option<&str>) -> (r: Vec<usize>)
    requires
        kinds@.len() == toks@.len(),
    ensures
        r@ == matching_spec(
            doc_token_views(toks@),
            kind_views(kinds@),
            string_views(terms@),
            match kind {
                Some(k) => Some(k@),
                None => None,
            },
        ),
{
    let ghost dv = doc_token_views(toks@);
    let ghost kv = kind_views(kinds@);
    let ghost tv = string_views(terms@);
    let ghost kk = match kind {
        Some(k) => Some(k@),
        None => None::<Seq<char>>,
    };
    let mut out: Vec<usize> = Vec::new();
    let mut i: usize = 0;
    while i < toks.len()
        invariant
            0 <= i <= toks@.len(),
            kinds@.len() == toks@.len(),
            dv == doc_token_views(toks@),
            kv == kind_views(kinds@),
            tv == string_views(terms@),
            kk == match kind {
                Some(k) => Some(k@),
                None => None::<Seq<char>>,
            },
            out@ == matching_spec(dv.take(i as int), kv, tv, kk),
        decreases toks@.len() - i,
    {
        let kind_ok = match kind {
            Some(k) => crate::text::str_eq(kinds[i], k),
            None => true,
        };
        let d = &toks[i];
        let mut found = false;
        let mut j: usize = 0;
        while j < terms.len() && !found
            invariant
                0 <= j <= terms@.len(),
                i < toks@.len(),
                *d == toks@[i as int],
                dv == doc_token_views(toks@),
                tv == string_views(terms@),
                found ==> exists|q: int| 0 <= q < tv.len() && doc_has_term(dv[i as int], #[trigger] tv[q]),
                !found ==> forall|q: int| 0 <= q < j ==> !doc_has_term(dv[i as int], #[trigger] tv[q]),
            decreases terms@.len() - j,
        {
            proof {
                assert(dv[i as int] == (string_views(d.0@), string_views(d.1@), string_views(d.2@)));
                assert(tv[j as int] == terms@[j as int]@);
            }
            if has_term(&d.0, &terms[j]) || has_term(&d.1, &terms[j]) || has_term(&d.2, &terms[j]) {
                found = true;
                assert(doc_has_term(dv[i as int], tv[j as int]));
            }
            j = j + 1;
        }
        proof {
            assert(dv.take(i + 1).drop_last() =~= dv.take(i as int));
            assert(dv.take(i + 1).last() == dv[i as int]);
            assert(kv[i as int] == kinds@[i as int]@);
            assert(found == exists|q: int| 0 <= q < tv.len() && doc_has_term(dv[i as int], #[trigger] tv[q]));
        }
        if kind_ok && found {
            out.push(i);
        }
        i = i + 1;
    }
    assert(dv.take(dv.len() as int) =~= dv);
    out
}

/// How many of the hits numbered `picks` are of kind `kind`.
pub open spec fn picked_of_kind(kinds: Seq<Seq<char>>, picks: Seq<usize>, kind: Seq<char>) -> nat
    decreases picks.len(),
{
    if picks.len() == 0 {
        0
    } else {
        picked_of_kind(kinds, picks.drop_last(), kind) + if kinds[picks.last() as int] == kind { 1nat } else { 0nat }
    }
}

/// Choosing from the ranked hits of kinds `kinds`, from hit `i` on, having chosen `picks`: a hit
/// whose kind already has four chosen is passed over unless `filtered`, the others are taken,
/// and the choice ends once `limit` are taken (none at all for a limit of zero).
pub open spec fn diverse_from(kinds: Seq<Seq<char>>, filtered: bool, limit: int, i: int, picks: Seq<usize>) -> Seq<usize>
    decreases kinds.len() - i,
{
    if i >= kinds.len() || i < 0 || limit <= 0 {
        picks
    } else if !filtered && picked_of_kind(kinds, picks, kinds[i]) >= 4 {
        diverse_from(kinds, filtered, limit, i + 1, picks)
    } else if picks.len() + 1 >= limit {
        picks.push(i as usize)
    } else {
        diverse_from(kinds, filtered, limit, i + 1, picks.push(i as usize))
    }
}

/// The views of a list of kinds.
pub open spec fn kind_views(kinds: Seq<&str>) -> Seq<Seq<char>> {
    kinds.map_values(|k: &str| k@)
}

/// Picks, from hits ranked best first and given by their kinds, the ones to show: at most
/// `limit`, and — unless the search was restricted to one
/// kind (`filtered`) — at most four of any one kind. Returns their ranks, in order.
pub fn diverse_picks(kinds: &Vec<&str>, filtered: bool, limit: usize) -> (r: Vec<usize>)
    ensures
        r@ == diverse_from(kind_views(kinds@), filtered, limit as int, 0, Seq::empty()),
{
    let ghost kv = kind_views(kinds@);
    let mut picks: Vec<usize> = Vec::new();
    if limit == 0 {
        return picks;
    }
    let mut i: usize = 0;
    while i < kinds.len()
        invariant
            0 <= i <= kinds@.len(),
            kv == kind_views(kinds@),
            limit > 0,
            picks@.len() < limit,
            forall|j: int| 0 <= j < picks@.len() ==> #[trigger] picks@[j] < i,
            diverse_from(kv, filtered, limit as int, 0, Seq::empty()) == diverse_from(kv, filtered, limit as int, i as int, picks@),
        decreases kinds@.len() - i,
    {
        // How many of this kind are already chosen.
        let kind = kinds[i];
        let mut c: usize = 0;
        let mut j: usize = 0;
        while j < picks.len()
            invariant
                0 <= j <= picks@.len(),
                kv == kind_views(kinds@),
                i < kinds@.len(),
                kind@ == kv[i as int],
                forall|q: int| 0 <= q < picks@.len() ==> #[trigger] picks@[q] < i,
                c == picked_of_kind(kv, picks@.take(j as int), kv[i as int]),
                c <= j,
            decreases picks@.len() - j,
        {
            assert(picks@.take(j + 1).drop_last() =~= picks@.take(j as int));
            assert(kv[picks@[j as int] as int] == kinds@[picks@[j as int] as int]@);
            if crate::text::str_eq(kinds[picks[j]], kind) {
                c = c + 1;
            }
            j = j + 1;
        }
        assert(picks@.take(picks@.len() as int) =~= picks@);
        if !filtered && c >= 4 {
            i = i + 1;
            continue;
        }
        picks.push(i);
        if picks.len() >= limit {
            return picks;
        }
        i = i + 1;
    }
    picks
}

/// One hit to print: the document and its best-matching fragment.
pub struct Hit<'a> {
    pub doc: &'a Doc,
    pub fragment: String,
}

/// A line cut to its first 150 characters.
pub open spec fn clip150(l: Seq<char>) -> Seq<char> {
    if l.len() > 150 { l.take(150) } else { l }
}

/// The fragment lines shown for a hit: the first seven.
pub open spec fn shown_lines(fragment: Seq<char>) -> Seq<Seq<char>> {
    let ls = lines_spec(fragment);
    if ls.len() > 7 { ls.take(7) } else { ls }
}

/// `ls` each indented by four spaces, clipped to 150 characters, and ended by a line break.
pub open spec fn indented(ls: Seq<Seq<char>>) -> Seq<char>
    decreases ls.len(),
{
    if ls.len() == 0 {
        Seq::empty()
    } else {
        indented(ls.drop_last()) + "    "@ + clip150(ls.last()) + "\n"@
    }
}

/// How one hit is printed: `[kind] title`, its fragment lines indented, then `-> loc`.
pub open spec fn hit_text(d: DocView, fragment: Seq<char>) -> Seq<char> {
    "["@ + d.kind + "] "@ + d.title + "\n"@ + indented(shown_lines(fragment)) + "    -> "@ + d.loc + "\n"@
}

/// The printed hits.
pub open spec fn hits_text(hs: Seq<(DocView, Seq<char>)>) -> Seq<char>
    decreases hs.len(),
{
    if hs.len() == 0 {
        Seq::empty()
    } else {
        hits_text(hs.drop_last()) + hit_text(hs.last().0, hs.last().1)
    }
}

/// What [`render`] prints: the hits, or a hint that nothing was found for `query`.
pub open spec fn render_spec(hs: Seq<(DocView, Seq<char>)>, query: Seq<char>) -> Seq<char> {
    if hs.len() == 0 {
        "nothing found for '"@ + query + "'. Try other words, or `red_engine2 describe` for the topic list.\n"@
    } else {
        hits_text(hs)
    }
}

/// The views of a list of hits.
pub open spec fn hit_views(hs: Seq<Hit>) -> Seq<(DocView, Seq<char>)> {
    hs.map_values(|h: Hit| (h.doc@, h.fragment@))
}

/// Appends the characters of `s` to `r`.
fn extend_str(r: &mut Vec<char>, s: &str)
    ensures
        final(r)@ == old(r)@ + s@,
{
    let sv = chars_of(s);
    extend_chars(r, &sv);
}

/// Prints one hit onto `out`.
fn push_hit_text(out: &mut Vec<char>, h: &Hit)
    ensures
        final(out)@ == old(out)@ + hit_text(h.doc@, h.fragment@),
{
    let ghost o = out@;
    extend_str(out, "[");
    extend_str(out, h.doc.kind);
    extend_str(out, "] ");
    extend_str(out, h.doc.title.as_str());
    extend_str(out, "\n");
    let ghost head = out@;
    let frag = chars_of(h.fragment.as_str());
    let ls = lines_of(&frag);
    let ghost lv = char_views(ls@);
    let n = if ls.len() > 7 { 7 } else { ls.len() };
    let ghost shown = shown_lines(h.fragment@);
    assert(shown =~= lv.take(n as int));
    let mut k: usize = 0;
    assert(indented(lv.take(0)) =~= Seq::<char>::empty());
    while k < n
        invariant
            0 <= k <= n,
            n <= ls@.len(),
            lv == char_views(ls@),
            out@ == head + indented(lv.take(k as int)),
        decreases n - k,
    {
        assert(lv.take(k + 1).drop_last() =~= lv.take(k as int));
        extend_str(out, "    ");
        let l = &ls[k];
        let m = if l.len() > 150 { 150 } else { l.len() };
        let clipped = take_chars(l, m);
        assert(clipped@ == clip150(lv[k as int]));
        extend_chars(out, &clipped);
        extend_str(out, "\n");
        k = k + 1;
        assert(out@ =~= head + indented(lv.take(k as int)));
    }
    extend_str(out, "    -> ");
    extend_str(out, h.doc.loc.as_str());
    extend_str(out, "\n");
    assert(out@ =~= o + hit_text(h.doc@, h.fragment@));
}

/// Formats hits as text (kind, title, fragment, where to read more).
pub fn render(hits: &Vec<Hit>, query: &str) -> (r: String)
    ensures
        r@ == render_spec(hit_views(hits@), query@),
{
    let mut out: Vec<char> = Vec::new();
    if hits.len() == 0 {
        extend_str(&mut out, "nothing found for '");
        extend_str(&mut out, query);
        extend_str(&mut out, "'. Try other words, or `red_engine2 describe` for the topic list.\n");
        return string_from_chars(&out);
    }
    let ghost hv = hit_views(hits@);
    let mut i: usize = 0;
    while i < hits.len()
        invariant
            0 <= i <= hits@.len(),
            hv == hit_views(hits@),
            out@ == hits_text(hv.take(i as int)),
        decreases hits@.len() - i,
    {
        assert(hv.take(i + 1).drop_last() =~= hv.take(i as int));
        push_hit_text(&mut out, &hits[i]);
        i = i + 1;
    }
    assert(hv.take(hv.len() as int) =~= hv);
    string_from_chars(&out)
}


// ---------------------------------------------------------------------------------------------
// Corpus pieces: CLI commands and decision records
// ---------------------------------------------------------------------------------------------

/// One argument of a CLI command, as the command list describes it.
pub struct CommandArg {
    pub name: Option<String>,
    pub help: Option<String>,
}

/// One CLI command, as the command list describes it.
pub struct CommandInfo {
    pub name: Option<String>,
    pub about: Option<String>,
    pub args: Vec<CommandArg>,
}

/// The text of `o`, or `default` when there is none.
pub open spec fn text_or(o: Option<String>, default: Seq<char>) -> Seq<char> {
    match o {
        Some(s) => s@,
        None => default,
    }
}

/// The flag lines of a command: each argument's name, a space, and its help.
pub open spec fn flag_lines(args: Seq<CommandArg>) -> Seq<Seq<char>> {
    args.map_values(|a: CommandArg| text_or(a.name, ""@) + " "@ + text_or(a.help, ""@))
}

/// The document for one command: titled and located by its name (`?` when it has none), its
/// description followed by its flag lines as the body, and its name as the boosted text.
pub open spec fn command_doc(c: CommandInfo) -> DocView {
    let name = text_or(c.name, "?"@);
    DocView {
        kind: "command"@,
        title: "command `"@ + name + "`"@,
        body: text_or(c.about, ""@) + "\n"@ + join_lines(flag_lines(c.args@)),
        loc: "red_engine2 "@ + name + " --help"@,
        extra: name,
    }
}

/// The text of an optional string, or `default`.
fn text_or_exec(o: &Option<String>, default: &str) -> (r: Vec<char>)
    ensures
        r@ == text_or(*o, default@),
{
    match o {
        Some(s) => chars_of(s.as_str()),
        None => chars_of(default),
    }
}

/// One document per CLI command (see [`command_doc`]).
pub fn command_docs(commands: &Vec<CommandInfo>) -> (r: Vec<Doc>)
    ensures
        doc_views(r@) == commands@.map_values(|c: CommandInfo| command_doc(c)),
{
    let mut out: Vec<Doc> = Vec::new();
    let mut i: usize = 0;
    while i < commands.len()
        invariant
            0 <= i <= commands@.len(),
            doc_views(out@) == commands@.take(i as int).map_values(|c: CommandInfo| command_doc(c)),
        decreases commands@.len() - i,
    {
        let c = &commands[i];
        let name = text_or_exec(&c.name, "?");
        let mut flags: Vec<Vec<char>> = Vec::new();
        let mut k: usize = 0;
        while k < c.args.len()
            invariant
                0 <= k <= c.args@.len(),
                char_views(flags@) == flag_lines(c.args@.take(k as int)),
            decreases c.args@.len() - k,
        {
            let a = &c.args[k];
            let mut line = text_or_exec(&a.name, "");
            extend_str(&mut line, " ");
            let help = text_or_exec(&a.help, "");
            extend_chars(&mut line, &help);
            let ghost before = flags@;
            flags.push(line);
            proof {
                lemma_char_views_push(before, line);
                assert(flag_lines(c.args@.take(k + 1)) =~= flag_lines(c.args@.take(k as int)).push(line@));
            }
            k = k + 1;
        }
        assert(c.args@.take(c.args@.len() as int) =~= c.args@);
        let mut title = chars_of("command `");
        extend_chars(&mut title, &name);
        extend_str(&mut title, "`");
        let mut body = text_or_exec(&c.about, "");
        extend_str(&mut body, "\n");
        let joined = join_range(&flags, 0, flags.len());
        assert(char_views(flags@).subrange(0, flags@.len() as int) =~= char_views(flags@));
        extend_chars(&mut body, &joined);
        let mut loc = chars_of("red_engine2 ");
        extend_chars(&mut loc, &name);
        extend_str(&mut loc, " --help");
        let doc = Doc {
            kind: "command",
            title: string_from_chars(&title),
            body: string_from_chars(&body),
            loc: string_from_chars(&loc),
            extra: string_from_chars(&name),
        };
        let ghost before = out@;
        out.push(doc);
        proof {
            lemma_doc_views_push(before, doc);
            assert(commands@.take(i + 1).map_values(|c: CommandInfo| command_doc(c)) =~= commands@.take(i as int).map_values(|c: CommandInfo| command_doc(c)).push(command_doc(commands@[i as int])));
        }
        i = i + 1;
    }
    assert(commands@.take(commands@.len() as int) =~= commands@);
    out
}

/// The document for a decision record `file` with markdown `text`: titled `ADR ` and its first
/// line's heading text, with the remaining lines as its body, located at `docs/adr/<file>`, and
/// its title as the boosted text.
pub open spec fn adr_doc_spec(file: Seq<char>, text: Seq<char>) -> DocView {
    let ls = lines_spec(text);
    let title = if ls.len() > 0 { heading_title(ls[0]) } else { Seq::empty() };
    DocView {
        kind: "adr"@,
        title: "ADR "@ + title,
        body: join_lines(if ls.len() > 0 { ls.drop_first() } else { ls }),
        loc: "docs/adr/"@ + file,
        extra: title,
    }
}

/// One document per decision record: see [`adr_doc_spec`].
pub fn adr_doc(file: &str, text: &str) -> (r: Doc)
    ensures
        r@ == adr_doc_spec(file@, text@),
{
    let tv = chars_of(text);
    let ls = lines_of(&tv);
    let title = if ls.len() > 0 { heading_title_of(&ls[0]) } else { Vec::new() };
    let body = if ls.len() > 0 { join_range(&ls, 1, ls.len()) } else { Vec::new() };
    proof {
        let lv = char_views(ls@);
        if lv.len() > 0 {
            assert(lv.subrange(1, lv.len() as int) =~= lv.drop_first());
        } else {
            assert(join_lines(lv) =~= Seq::<char>::empty());
        }
    }
    let mut t = chars_of("ADR ");
    extend_chars(&mut t, &title);
    let mut loc = chars_of("docs/adr/");
    extend_str(&mut loc, file);
    Doc {
        kind: "adr",
        title: string_from_chars(&t),
        body: string_from_chars(&body),
        loc: string_from_chars(&loc),
        extra: string_from_chars(&title),
    }
}


// ---------------------------------------------------------------------------------------------
// Laws
// ---------------------------------------------------------------------------------------------

proof fn lemma_drop_stop_clean(ts: Seq<Seq<char>>)
    ensures
        forall|j: int| 0 <= j < drop_stop(ts).len() ==> !stop_words().contains(#[trigger] drop_stop(ts)[j]),
    decreases ts.len(),
{
    if ts.len() > 0 {
        lemma_drop_stop_clean(ts.drop_last());
        let a = drop_stop(ts.drop_last());
        assert forall|j: int| 0 <= j < drop_stop(ts).len() implies !stop_words().contains(#[trigger] drop_stop(ts)[j]) by {
            if j < a.len() {
                assert(drop_stop(ts)[j] == a[j]);
            }
        };
    }
}

proof fn lemma_pieces_terms_clean(pieces: Seq<Seq<char>>)
    ensures
        forall|j: int| 0 <= j < pieces_terms(pieces).len() ==> !stop_words().contains(#[trigger] pieces_terms(pieces)[j]),
    decreases pieces.len(),
{
    if pieces.len() > 0 {
        lemma_pieces_terms_clean(pieces.drop_last());
        let a = pieces_terms(pieces.drop_last());
        let w = pieces.last();
        let b = piece_terms(w);
        if utf8_len(w) > 1 {
            lemma_drop_stop_clean(word_terms(w));
        }
        assert forall|j: int| 0 <= j < pieces_terms(pieces).len() implies !stop_words().contains(#[trigger] pieces_terms(pieces)[j]) by {
            if j < a.len() {
                assert(pieces_terms(pieces)[j] == a[j]);
            } else {
                assert(pieces_terms(pieces)[j] == b[j - a.len()]);
            }
        };
    }
}

/// No index term is a stop word: [`tokens`] never yields one of [`STOP`].
pub proof fn lemma_tokens_have_no_stop_words(s: Seq<char>)
    ensures
        forall|j: int| 0 <= j < tokens_spec(s).len() ==> !stop_words().contains(#[trigger] tokens_spec(s)[j]),
{
    lemma_pieces_terms_clean(split_at(s, word_separator()));
}

proof fn lemma_split_underscores(s: Seq<char>)
    requires
        (word_separator())('_'),
        (word_separator())(' '),
    ensures
        split_at(underscores_to_spaces(s), word_separator()) == split_at(s, word_separator()),
    decreases s.len(),
{
    if s.len() > 0 {
        lemma_split_underscores(s.drop_last());
        assert(underscores_to_spaces(s).drop_last() =~= underscores_to_spaces(s.drop_last()));
        assert(underscores_to_spaces(s).last() == if s.last() == '_' { ' ' } else { s.last() });
    }
}

/// Underscores already separate words (`_` is neither a letter, a digit nor `-`), so reading
/// them as spaces changes nothing: [`tokens_snake`] gives the same terms as [`tokens`].
pub proof fn lemma_snake_tokens_same(s: Seq<char>)
    ensures
        tokens_spec(underscores_to_spaces(s)) == tokens_spec(s),
{
    lemma_split_underscores(s);
}

/// The full-weight terms of a weighted term list, in order.
pub open spec fn full_weight_terms(x: Seq<(Seq<char>, bool)>) -> Seq<Seq<char>>
    decreases x.len(),
{
    if x.len() == 0 {
        Seq::empty()
    } else {
        full_weight_terms(x.drop_last()) + if x.last().1 {
            seq![x.last().0]
        } else {
            Seq::empty()
        }
    }
}

proof fn lemma_full_weight_append(a: Seq<(Seq<char>, bool)>, b: Seq<(Seq<char>, bool)>)
    ensures
        full_weight_terms(a + b) == full_weight_terms(a) + full_weight_terms(b),
    decreases b.len(),
{
    if b.len() == 0 {
        assert(a + b =~= a);
        assert(full_weight_terms(a) + full_weight_terms(b) =~= full_weight_terms(a));
    } else {
        lemma_full_weight_append(a, b.drop_last());
        assert((a + b).drop_last() =~= a + b.drop_last());
        assert((a + b).last() == b.last());
        assert(full_weight_terms(a + b) =~= full_weight_terms(a) + full_weight_terms(b));
    }
}

proof fn lemma_full_weight_synonyms(ts: Seq<Seq<char>>)
    ensures
        full_weight_terms(ts.map_values(|s: Seq<char>| (s, false))) == Seq::<Seq<char>>::empty(),
    decreases ts.len(),
{
    if ts.len() > 0 {
        lemma_full_weight_synonyms(ts.drop_last());
        assert(ts.map_values(|s: Seq<char>| (s, false)).drop_last() =~= ts.drop_last().map_values(
            |s: Seq<char>| (s, false),
        ));
    }
}

proof fn lemma_expand_terms_full_weight(ts: Seq<Seq<char>>)
    ensures
        full_weight_terms(expand_terms(ts)) == ts,
    decreases ts.len(),
{
    if ts.len() > 0 {
        let t = ts.last();
        let head = expand_terms(ts.drop_last());
        let syn = synonym_terms(t, 35).map_values(|s: Seq<char>| (s, false));
        lemma_expand_terms_full_weight(ts.drop_last());
        lemma_full_weight_append(head + seq![(t, true)], syn);
        lemma_full_weight_append(head, seq![(t, true)]);
        lemma_full_weight_synonyms(synonym_terms(t, 35));
        assert(full_weight_terms(seq![(t, true)]) =~= seq![t]) by {
            reveal_with_fuel(full_weight_terms, 2);
            assert(seq![(t, true)].drop_last() =~= Seq::<(Seq<char>, bool)>::empty());
        };
        assert(ts.drop_last().push(t) =~= ts);
        assert(full_weight_terms(expand_terms(ts)) =~= ts);
    }
}

/// A query expands into its own terms at full weight, in order, and only those: every synonym
/// term comes in at reduced weight.
pub proof fn lemma_expand_keeps_query_terms(query: Seq<char>)
    ensures
        full_weight_terms(expand_spec(query)) == tokens_spec(underscores_to_spaces(query)),
{
    lemma_expand_terms_full_weight(tokens_spec(underscores_to_spaces(query)));
}

proof fn lemma_picked_of_kind_push(kinds: Seq<Seq<char>>, picks: Seq<usize>, i: usize, kind: Seq<char>)
    ensures
        picked_of_kind(kinds, picks.push(i), kind) == picked_of_kind(kinds, picks, kind) + if kinds[i as int] == kind {
            1nat
        } else {
            0nat
        },
{
    assert(picks.push(i).drop_last() =~= picks);
}

proof fn lemma_diverse_from(kinds: Seq<Seq<char>>, filtered: bool, limit: int, i: int, picks: Seq<usize>)
    requires
        0 <= i <= kinds.len(),
        kinds.len() <= usize::MAX,
        forall|a: int, b: int| 0 <= a < b < picks.len() ==> picks[a] < picks[b],
        forall|a: int| 0 <= a < picks.len() ==> picks[a] < i,
        picks.len() == 0 || picks.len() < limit,
        !filtered ==> forall|k: Seq<char>| picked_of_kind(kinds, picks, k) <= 4,
    ensures
        ({
            let r = diverse_from(kinds, filtered, limit, i, picks);
            &&& forall|a: int, b: int| 0 <= a < b < r.len() ==> r[a] < r[b]
            &&& forall|a: int| 0 <= a < r.len() ==> r[a] < kinds.len()
            &&& limit >= 0 ==> r.len() <= limit
            &&& !filtered ==> forall|k: Seq<char>| picked_of_kind(kinds, r, k) <= 4
            &&& r.len() >= picks.len()
            &&& r.take(picks.len() as int) == picks
        }),
    decreases kinds.len() - i,
{
    if i < kinds.len() {
        if !filtered && picked_of_kind(kinds, picks, kinds[i]) >= 4 {
            lemma_diverse_from(kinds, filtered, limit, i + 1, picks);
        } else {
            let next = picks.push(i as usize);
            assert forall|k: Seq<char>| !filtered implies picked_of_kind(kinds, next, k) <= 4 by {
                lemma_picked_of_kind_push(kinds, picks, i as usize, k);
            };
            assert(next.take(picks.len() as int) =~= picks);
            if picks.len() + 1 >= limit {
            } else {
                lemma_diverse_from(kinds, filtered, limit, i + 1, next);
                let r = diverse_from(kinds, filtered, limit, i + 1, next);
                assert(r.take(picks.len() as int) =~= r.take(next.len() as int).take(picks.len() as int));
            }
        }
    } else {
        assert(picks.take(picks.len() as int) =~= picks);
    }
}

/// The hits shown are a selection of the ranked hits in rank order: at most `limit` of them,
/// and, unless the search was restricted to one kind, at most four of any
/// kind.
pub proof fn lemma_diverse_picks(kinds: Seq<Seq<char>>, filtered: bool, limit: int)
    requires
        kinds.len() <= usize::MAX,
    ensures
        ({
            let r = diverse_from(kinds, filtered, limit, 0, Seq::empty());
            &&& forall|a: int, b: int| 0 <= a < b < r.len() ==> r[a] < r[b]
            &&& forall|a: int| 0 <= a < r.len() ==> r[a] < kinds.len()
            &&& limit >= 0 ==> r.len() <= limit
            &&& !filtered ==> forall|k: Seq<char>| picked_of_kind(kinds, r, k) <= 4
        }),
{
    lemma_diverse_from(kinds, filtered, limit, 0, Seq::empty());
}

/// Word characters: ASCII letters, ASCII digits and the hyphen never separate words; every other
/// ASCII character does.
pub proof fn lemma_word_characters(c: char)
    ensures
        ('0' <= c <= '9' || 'a' <= c <= 'z' || 'A' <= c <= 'Z' || c == '-') ==> !(word_separator())(c),
        (c as u32) < 0x80 && !('0' <= c <= '9' || 'a' <= c <= 'z' || 'A' <= c <= 'Z' || c == '-') ==> (word_separator())(c),
{
}

proof fn lemma_split_no_separator(s: Seq<char>)
    requires
        forall|i: int| 0 <= i < s.len() ==> !(word_separator())(#[trigger] s[i]),
    ensures
        split_at(s, word_separator()) == seq![s],
    decreases s.len(),
{
    if s.len() > 0 {
        let t = s.drop_last();
        assert forall|i: int| 0 <= i < t.len() implies !(word_separator())(#[trigger] t[i]) by {
            assert(t[i] == s[i]);
        };
        lemma_split_no_separator(t);
        assert(!(word_separator())(s[s.len() - 1]));
        assert(t.push(s.last()) =~= s);
    } else {
        assert(s =~= Seq::<char>::empty());
    }
}

proof fn lemma_ascii_utf8_len(s: Seq<char>)
    requires
        is_ascii_seq(s),
    ensures
        utf8_len(s) == s.len(),
    decreases s.len(),
{
    if s.len() > 0 {
        let t = s.drop_last();
        assert forall|i: int| 0 <= i < t.len() implies (#[trigger] t[i] as u32) < 0x80 by {
            assert(t[i] == s[i]);
        };
        lemma_ascii_utf8_len(t);
        assert((s[s.len() - 1] as u32) < 0x80);
    }
}

/// Numbers are index terms: a run of two or more ASCII digits standing alone is one term, itself
/// (so a decision record can be found by its number).
pub proof fn lemma_digit_run_is_a_term(d: Seq<char>)
    requires
        d.len() >= 2,
        forall|i: int| 0 <= i < d.len() ==> '0' <= #[trigger] d[i] <= '9',
    ensures
        tokens_spec(d) == seq![d],
{
    assert forall|i: int| 0 <= i < d.len() implies !(word_separator())(#[trigger] d[i]) by {
        lemma_word_characters(d[i]);
    };
    lemma_split_no_separator(d);
    assert(is_ascii_seq(d)) by {
        assert forall|i: int| 0 <= i < d.len() implies (#[trigger] d[i] as u32) < 0x80 by {
            assert('0' <= d[i] <= '9');
        };
    };
    lemma_ascii_utf8_len(d);
    assert(ascii_lower_seq(d) =~= d);
    let last = d[d.len() - 1];
    assert('0' <= last <= '9');
    reveal_strlit("ing");
    reveal_strlit("ies");
    reveal_strlit("es");
    reveal_strlit("ed");
    reveal_strlit("s");
    assert(!strips(d, "ing"@)) by {
        if strips(d, "ing"@) {
            assert(d.subrange(d.len() - 3, d.len() as int)[2] == last);
        }
    };
    assert(!strips(d, "ies"@)) by {
        if strips(d, "ies"@) {
            assert(d.subrange(d.len() - 3, d.len() as int)[2] == last);
        }
    };
    assert(!strips(d, "es"@)) by {
        if strips(d, "es"@) {
            assert(d.subrange(d.len() - 2, d.len() as int)[1] == last);
        }
    };
    assert(!strips(d, "ed"@)) by {
        if strips(d, "ed"@) {
            assert(d.subrange(d.len() - 2, d.len() as int)[1] == last);
        }
    };
    assert(!strips(d, "s"@)) by {
        if strips(d, "s"@) {
            assert(d.subrange(d.len() - 1, d.len() as int)[0] == last);
        }
    };
    assert(stem_spec(d) == d);
    assert(!d.contains('-')) by {
        if d.contains('-') {
            let i = choose|i: int| 0 <= i < d.len() && d[i] == '-';
            assert('0' <= d[i] <= '9');
        }
    };
    assert(word_terms(d) =~= seq![d]);
    assert(!stop_words().contains(d)) by {
        if stop_words().contains(d) {
            let j = choose|j: int| 0 <= j < stop_words().len() && stop_words()[j] == d;
            reveal_strlit("the");
            reveal_strlit("a");
            reveal_strlit("an");
            reveal_strlit("of");
            reveal_strlit("to");
            reveal_strlit("in");
            reveal_strlit("is");
            reveal_strlit("it");
            reveal_strlit("and");
            reveal_strlit("or");
            reveal_strlit("for");
            reveal_strlit("on");
            reveal_strlit("how");
            reveal_strlit("do");
            reveal_strlit("i");
            reveal_strlit("can");
            reveal_strlit("what");
            reveal_strlit("with");
            reveal_strlit("my");
            reveal_strlit("be");
            reveal_strlit("are");
            reveal_strlit("does");
            reveal_strlit("make");
            reveal_strlit("get");
            reveal_strlit("use");
            reveal_strlit("add");
            reveal_strlit("want");
            reveal_strlit("need");
            assert('0' <= d[0] <= '9');
            assert(stop_words()[j][0] == d[0]);
        }
    };
    reveal_with_fuel(drop_stop, 2);
    assert(seq![d].drop_last() =~= Seq::<Seq<char>>::empty());
    assert(drop_stop(seq![d]) =~= seq![d]);
    reveal_with_fuel(pieces_terms, 2);
    assert(seq![d].drop_last() =~= Seq::<Seq<char>>::empty());
    assert(pieces_terms(seq![d]) =~= seq![d]);
}

/// How the stemmer cuts an ASCII word with at least three characters before the ending: `ing`,
/// `ed` go (`walking`, `walked` → `walk`), `ies` becomes `y` (`bodies` → `body`), `es` goes
/// where it is not the end of `ies`, and a lone `s` goes where it is not the end of `es`; a word
/// of at most three characters is never cut.
pub proof fn lemma_stem_endings(v: Seq<char>)
    requires
        is_ascii_seq(v),
    ensures
        v.len() <= 3 ==> stem_lower(v) == v,
        v.len() >= 3 ==> stem_lower(v + "ing"@) == v,
        v.len() >= 3 ==> stem_lower(v + "ed"@) == v,
        v.len() >= 3 ==> stem_lower(v + "ies"@) == v.push('y'),
        v.len() >= 3 && v.last() != 'i' ==> stem_lower(v + "es"@) == v,
        v.len() >= 3 && v.last() != 'e' ==> stem_lower(v + "s"@) == v,
{
    reveal_strlit("ing");
    reveal_strlit("ies");
    reveal_strlit("es");
    reveal_strlit("ed");
    reveal_strlit("s");
    lemma_ascii_utf8_len(v);
    let sufs = seq!["ing"@, "ed"@, "ies"@, "es"@, "s"@];
    assert forall|k: int| 0 <= k < 5 implies #[trigger] utf8_len(v + sufs[k]) == v.len() + sufs[k].len() by {
        let u = v + sufs[k];
        assert forall|i: int| 0 <= i < u.len() implies (#[trigger] u[i] as u32) < 0x80 by {
            if i < v.len() {
                assert(u[i] == v[i]);
            } else {
                assert(u[i] == sufs[k][i - v.len()]);
            }
        };
        lemma_ascii_utf8_len(u);
    };
    if v.len() >= 3 {
        assert(utf8_len(v + sufs[0]) == v.len() + 3);
        assert(utf8_len(v + sufs[1]) == v.len() + 2);
        assert(utf8_len(v + sufs[2]) == v.len() + 3);
        assert(utf8_len(v + sufs[3]) == v.len() + 2);
        assert(utf8_len(v + sufs[4]) == v.len() + 1);
        let (a, b, c, d, e) = (v + "ing"@, v + "ed"@, v + "ies"@, v + "es"@, v + "s"@);
        assert(a.subrange(a.len() - 3, a.len() as int) =~= "ing"@);
        assert(a.take(a.len() - 3) =~= v);
        assert(b.subrange(b.len() - 3, b.len() as int) != "ing"@ && b.subrange(b.len() - 3, b.len() as int) != "ies"@);
        assert(b.subrange(b.len() - 2, b.len() as int) != "es"@);
        assert(b.subrange(b.len() - 2, b.len() as int) =~= "ed"@);
        assert(b.take(b.len() - 2) =~= v);
        assert(c.subrange(c.len() - 3, c.len() as int) != "ing"@);
        assert(c.subrange(c.len() - 3, c.len() as int) =~= "ies"@);
        assert(c.take(c.len() - 3).push('y') =~= v.push('y'));
        if v.last() != 'i' {
            let ds = d.subrange(d.len() - 3, d.len() as int);
            assert(ds[2] == 's' && ds[0] == v.last());
            assert(d.subrange(d.len() - 3, d.len() as int) != "ing"@ && d.subrange(d.len() - 3, d.len() as int) != "ies"@);
            assert(d.subrange(d.len() - 2, d.len() as int) =~= "es"@);
            assert(d.take(d.len() - 2) =~= v);
        }
        if v.last() != 'e' {
            let es = e.subrange(e.len() - 3, e.len() as int);
            assert(es[2] == 's' && es[1] == v.last());
            assert(e.subrange(e.len() - 3, e.len() as int) != "ing"@ && e.subrange(e.len() - 3, e.len() as int) != "ies"@);
            let e2 = e.subrange(e.len() - 2, e.len() as int);
            assert(e2[0] == v.last() && e2[1] == 's');
            assert(e.subrange(e.len() - 2, e.len() as int) != "es"@ && e.subrange(e.len() - 2, e.len() as int) != "ed"@);
            assert(e.subrange(e.len() - 1, e.len() as int) =~= "s"@);
            assert(e.take(e.len() - 1) =~= v);
        }
    }
}

} // verus!
