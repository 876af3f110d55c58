use vstd::prelude::*;
use vstd::utf8::is_ascii_chars;

verus! {

/// What `deunicode::deunicode` returns for a text: its transliteration.
pub uninterp spec fn deunicode_text(s: Seq<char>) -> Seq<char>;

/// Calls `deunicode::deunicode`, which maps each character of the text to an
/// ASCII spelling of it; the result depends on the text alone.
#[verifier::external_body]
fn transliterate(s: &str) -> (r: String)
    ensures
        r@ == deunicode_text(s@),
{
    deunicode::deunicode(s)
}

/// Calls `String::push`, which appends one character.
#[verifier::external_body]
fn push_char(s: &mut String, c: char)
    ensures
        final(s)@ == old(s)@.push(c),
{
    s.push(c)
}

/// A character of ASCII.
pub open spec fn is_ascii_char(c: char) -> bool {
    c <= '\u{7f}'
}

/// White space of ASCII: space, tab, line feed, vertical tab, form feed,
/// carriage return.
pub open spec fn is_space(c: char) -> bool {
    c == ' ' || ('\u{9}' <= c && c <= '\u{d}')
}

/// The lower-case form of an ASCII capital; any other character itself.
pub open spec fn fold_char(c: char) -> char {
    if 'A' <= c && c <= 'Z' {
        ((c as u8) + 32) as char
    } else {
        c
    }
}

/// The ASCII characters of a text, in order.
pub open spec fn keep_ascii(s: Seq<char>) -> Seq<char>
    decreases s.len(),
{
    if s.len() == 0 {
        Seq::empty()
    } else if is_ascii_char(s.last()) {
        keep_ascii(s.drop_last()).push(s.last())
    } else {
        keep_ascii(s.drop_last())
    }
}

/// The text without white space at its ends and with one space in place of
/// each run of white space inside it: a character that is not white space
/// follows what came before it, after one space where white space parts them.
pub open spec fn collapse(s: Seq<char>) -> Seq<char>
    decreases s.len(),
{
    if s.len() == 0 {
        Seq::empty()
    } else {
        let before = s.drop_last();
        let c = s.last();
        if is_space(c) {
            collapse(before)
        } else if collapse(before).len() > 0 && is_space(before.last()) {
            collapse(before).push(' ').push(c)
        } else {
            collapse(before).push(c)
        }
    }
}

/// The text with each ASCII capital in lower case.
pub open spec fn fold_case(s: Seq<char>) -> Seq<char> {
    Seq::new(s.len(), |i: int| fold_char(s[i]))
}

/// The ASCII spelling of a text: the text itself where it is ASCII already,
/// otherwise the ASCII characters of its transliteration.
pub open spec fn ascii_spelling(raw: Seq<char>) -> Seq<char> {
    if is_ascii_chars(raw) {
        raw
    } else {
        keep_ascii(deunicode_text(raw))
    }
}

/// The key of a transliterated text: white space collapsed, then case folded.
pub open spec fn canonical(text: Seq<char>) -> Seq<char> {
    fold_case(collapse(keep_ascii(text)))
}

/// The key under which a name is matched: transliterated to ASCII, white
/// space trimmed and collapsed, case folded.
pub open spec fn normalize_spec(raw: Seq<char>) -> Seq<char> {
    fold_case(collapse(ascii_spelling(raw)))
}

/// Whether a text is a key: ASCII without capitals, with no white space but
/// single spaces between other characters.
pub open spec fn is_key(s: Seq<char>) -> bool {
    &&& is_ascii_chars(s)
    &&& tidy(s)
    &&& forall|i: int| 0 <= i < s.len() ==> !('A' <= #[trigger] s[i] && s[i] <= 'Z')
}

/// White space in the text is a single space, never first and never next to
/// another.
pub open spec fn loose(s: Seq<char>) -> bool {
    forall|i: int|
        0 <= i < s.len() && is_space(#[trigger] s[i]) ==> s[i] == ' ' && i > 0 && !is_space(
            s[i - 1],
        )
}

/// A loose text that does not end in white space.
pub open spec fn tidy(s: Seq<char>) -> bool {
    loose(s) && (s.len() > 0 ==> !is_space(s.last()))
}

fn lower(c: char) -> (r: char)
    ensures
        r == fold_char(c),
{
    if 'A' <= c && c <= 'Z' {
        let b: u8 = c as u8;
        (b + 32) as char
    } else {
        c
    }
}

/// The key of a text that has been transliterated: its ASCII characters, white
/// space trimmed and collapsed, capitals in lower case.
pub fn canonical_key(text: &str) -> (key: String)
    ensures
        key@ == canonical(text@),
{
    let mut key = String::new();
    let mut gap = false;
    let mut empty = true;
    for c in it: text.chars()
        invariant
            it.seq() == text@,
            key@ == canonical(text@.take(it.index() as int)),
            empty == (collapse(keep_ascii(text@.take(it.index() as int))).len() == 0),
            gap == (keep_ascii(text@.take(it.index() as int)).len() > 0 && is_space(
                keep_ascii(text@.take(it.index() as int)).last(),
            )),
    {
        let ghost before = text@.take(it.index() as int);
        let ghost after = text@.take(it.index() + 1);
        proof {
            assert(after.drop_last() == before);
            assert(after.last() == c);
            let kept = keep_ascii(before);
            if is_ascii_char(c) {
                assert(keep_ascii(after) == kept.push(c));
                assert(kept.push(c).drop_last() == kept);
                if !is_space(c) {
                    if collapse(kept).len() > 0 && is_space(kept.last()) {
                        assert(canonical(after) == canonical(before).push(' ').push(fold_char(c)));
                    } else {
                        assert(canonical(after) == canonical(before).push(fold_char(c)));
                    }
                }
            }
        }
        if c <= '\u{7f}' {
            if c == ' ' || ('\u{9}' <= c && c <= '\u{d}') {
                gap = true;
            } else {
                if gap && !empty {
                    push_char(&mut key, ' ');
                }
                push_char(&mut key, lower(c));
                gap = false;
                empty = false;
            }
        }
    }
    proof {
        assert(text@.take(text@.len() as int) == text@);
    }
    key
}

/// The key under which a name is matched across tables: the name
/// transliterated to ASCII, white space trimmed and collapsed, capitals in
/// lower case. Characters outside ASCII that a transliteration leaves are
/// dropped.
pub fn normalize_name(raw: &str) -> (key: String)
    ensures
        key@ == normalize_spec(raw@),
        is_key(key@),
        is_key(raw@) ==> key@ == raw@,
{
    proof {
        lemma_normalize_is_key(raw@);
        if is_key(raw@) {
            lemma_key_fixed(raw@);
        }
    }
    if raw.is_ascii() {
        proof {
            lemma_keep_ascii_fixed(raw@);
        }
        canonical_key(raw)
    } else {
        let spelled = transliterate(raw);
        proof {
            lemma_keep_ascii_is_ascii(spelled@);
            lemma_keep_ascii_fixed(keep_ascii(spelled@));
        }
        canonical_key(spelled.as_str())
    }
}

/// No character lies below the first one.
pub proof fn lemma_char_floor(c: char)
    ensures
        '\0' <= c,
{
}

/// What is kept of a text is ASCII.
pub proof fn lemma_keep_ascii_is_ascii(s: Seq<char>)
    ensures
        is_ascii_chars(keep_ascii(s)),
    decreases s.len(),
{
    if s.len() > 0 {
        lemma_keep_ascii_is_ascii(s.drop_last());
        let before = keep_ascii(s.drop_last());
        let kept = keep_ascii(s);
        assert forall|i: int| 0 <= i < kept.len() implies '\0' <= #[trigger] kept[i] && kept[i]
            <= '\u{7f}' by {
            if i < before.len() {
                assert(kept[i] == before[i]);
                assert('\0' <= before[i] && before[i] <= '\u{7f}');
            } else {
                assert(kept[i] == s.last());
                lemma_char_floor(s.last());
            }
        }
    }
}

/// All of an ASCII text is kept.
pub proof fn lemma_keep_ascii_fixed(s: Seq<char>)
    requires
        is_ascii_chars(s),
    ensures
        keep_ascii(s) == s,
    decreases s.len(),
{
    if s.len() > 0 {
        lemma_keep_ascii_fixed(s.drop_last());
        assert(s.drop_last().push(s.last()) == s);
    }
}

/// A collapsed text is tidy, and ASCII where the text was.
pub proof fn lemma_collapse_tidy(s: Seq<char>)
    ensures
        tidy(collapse(s)),
        is_ascii_chars(s) ==> is_ascii_chars(collapse(s)),
    decreases s.len(),
{
    if s.len() > 0 {
        lemma_collapse_tidy(s.drop_last());
    }
}

/// Collapsing a loose text only takes a space from its end.
pub proof fn lemma_collapse_loose(s: Seq<char>)
    requires
        loose(s),
    ensures
        collapse(s) == (if s.len() > 0 && is_space(s.last()) {
            s.drop_last()
        } else {
            s
        }),
    decreases s.len(),
{
    if s.len() > 0 {
        let before = s.drop_last();
        assert forall|i: int| 0 <= i < before.len() && is_space(#[trigger] before[i]) implies before[i]
            == ' ' && i > 0 && !is_space(before[i - 1]) by {
            assert(before[i] == s[i]);
        }
        lemma_collapse_loose(before);
        let c = s.last();
        assert(s[s.len() - 1] == c);
        if is_space(c) {
            assert(before.len() > 0);
            assert(before.last() == s[s.len() - 2]);
        } else if before.len() > 0 && is_space(before.last()) {
            assert(before[before.len() - 1] == ' ');
            assert(before.len() >= 2);
            assert(before.drop_last().push(' ').push(c) =~= s);
        } else {
            assert(before.push(c) =~= s);
        }
    }
}

/// Folding case keeps a tidy ASCII text tidy and ASCII, and leaves no capital.
pub proof fn lemma_fold_case_key(s: Seq<char>)
    requires
        tidy(s),
        is_ascii_chars(s),
    ensures
        is_key(fold_case(s)),
        fold_case(fold_case(s)) == fold_case(s),
{
    let f = fold_case(s);
    assert forall|i: int| 0 <= i < f.len() implies (is_space(#[trigger] f[i]) == is_space(s[i])
        && (is_space(s[i]) ==> f[i] == s[i]) && f[i] <= '\u{7f}' && !('A' <= f[i] && f[i] <= 'Z')
        && fold_char(f[i]) == f[i]) by {
        lemma_fold_char(s[i]);
    }
    assert(fold_case(f) =~= f);
    assert forall|i: int| 0 <= i < f.len() && is_space(#[trigger] f[i]) implies f[i] == ' ' && i > 0
        && !is_space(f[i - 1]) by {
        assert(is_space(s[i]));
    }
}

/// The lower-case form of an ASCII character is ASCII and no capital, and is
/// white space just where the character is.
pub proof fn lemma_fold_char(c: char)
    requires
        is_ascii_char(c),
    ensures
        is_ascii_char(fold_char(c)),
        !('A' <= fold_char(c) && fold_char(c) <= 'Z'),
        is_space(fold_char(c)) == is_space(c),
        is_space(c) ==> fold_char(c) == c,
        fold_char(fold_char(c)) == fold_char(c),
{
}

/// The key of every name is a key.
pub proof fn lemma_normalize_is_key(raw: Seq<char>)
    ensures
        is_key(normalize_spec(raw)),
{
    let spelled = ascii_spelling(raw);
    if !is_ascii_chars(raw) {
        lemma_keep_ascii_is_ascii(deunicode_text(raw));
    }
    lemma_collapse_tidy(spelled);
    lemma_fold_case_key(collapse(spelled));
}

/// A key is its own key.
pub proof fn lemma_key_fixed(key: Seq<char>)
    requires
        is_key(key),
    ensures
        normalize_spec(key) == key,
{
    lemma_collapse_loose(key);
    assert(fold_case(key) =~= key);
}

/// Normalising is idempotent: the key of a key is that key.
pub proof fn lemma_normalize_idempotent(raw: Seq<char>)
    ensures
        normalize_spec(normalize_spec(raw)) == normalize_spec(raw),
{
    lemma_normalize_is_key(raw);
    lemma_key_fixed(normalize_spec(raw));
}

/// Folding case and collapsing white space can be done in either order.
pub proof fn lemma_fold_collapse_commute(s: Seq<char>)
    ensures
        fold_case(collapse(s)) == collapse(fold_case(s)),
    decreases s.len(),
{
    if s.len() == 0 {
        assert(fold_case(collapse(s)) =~= collapse(fold_case(s)));
    } else {
        let before = s.drop_last();
        let c = s.last();
        lemma_fold_collapse_commute(before);
        assert(fold_case(s).drop_last() =~= fold_case(before));
        assert(fold_case(s).last() == fold_char(c));
        assert(is_space(fold_char(c)) == is_space(c));
        if before.len() > 0 {
            assert(fold_case(before).last() == fold_char(before.last()));
            assert(is_space(fold_char(before.last())) == is_space(before.last()));
        }
        assert(fold_case(collapse(before)).len() == collapse(before).len());
        if is_space(c) {
        } else if collapse(before).len() > 0 && is_space(before.last()) {
            assert(fold_case(collapse(before).push(' ').push(c)) =~= fold_case(
                collapse(before),
            ).push(' ').push(fold_char(c)));
        } else {
            assert(fold_case(collapse(before).push(c)) =~= fold_case(collapse(before)).push(
                fold_char(c),
            ));
        }
    }
}

/// Names of ASCII that differ only in the case of their letters have the same
/// key.
pub proof fn lemma_normalize_ignores_case(a: Seq<char>, b: Seq<char>)
    requires
        is_ascii_chars(a),
        is_ascii_chars(b),
        fold_case(a) == fold_case(b),
    ensures
        normalize_spec(a) == normalize_spec(b),
{
    lemma_fold_collapse_commute(a);
    lemma_fold_collapse_commute(b);
}

} // verus!
