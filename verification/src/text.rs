use vstd::prelude::*;

verus! {

/// `s` without the copies of `c` that end it.
pub open spec fn trim_end_char(s: Seq<char>, c: char) -> Seq<char>
    decreases s.len(),
{
    if s.len() > 0 && s.last() == c {
        trim_end_char(s.drop_last(), c)
    } else {
        s
    }
}

/// Slashes added at the end of `s` make no difference once trailing slashes
/// are trimmed: a base address gives the same endpoints with or without them.
pub proof fn lemma_extra_trailing_slash_ignored(s: Seq<char>)
    ensures
        trim_end_char(s.push('/'), '/') == trim_end_char(s, '/'),
{
    assert(s.push('/').drop_last() =~= s);
}

/// `s` without the slashes that end it.
pub fn trim_trailing_slashes(s: &str) -> (trimmed: &str)
    ensures
        trimmed@ == trim_end_char(s@, '/'),
{
    let len = s.unicode_len();
    let mut end = len;
    assert(s@.subrange(0, len as int) =~= s@);
    while end > 0
        invariant
            len == s@.len(),
            end <= len,
            trim_end_char(s@, '/') == trim_end_char(s@.subrange(0, end as int), '/'),
        ensures
            end <= len,
            trim_end_char(s@, '/') == s@.subrange(0, end as int),
        decreases end,
    {
        if s.get_char(end - 1) != '/' {
            break;
        }
        assert(s@.subrange(0, end as int).drop_last() =~= s@.subrange(0, end - 1));
        end -= 1;
    }
    s.substring_char(0, end)
}

/// The code of `c` once an ASCII capital letter is taken to its small letter.
pub open spec fn ascii_fold(c: char) -> u32 {
    let code = c as u32;
    if 65 <= code <= 90 {
        (code + 32) as u32
    } else {
        code
    }
}

/// `a` and `b` are equal but for the case of ASCII letters.
pub open spec fn equal_ignoring_ascii_case(a: Seq<char>, b: Seq<char>) -> bool {
    &&& a.len() == b.len()
    &&& forall|i: int| 0 <= i < a.len() ==> #[trigger] ascii_fold(a[i]) == ascii_fold(b[i])
}

fn fold_char(c: char) -> (code: u32)
    ensures
        code == ascii_fold(c),
{
    let code = c as u32;
    if 65 <= code && code <= 90 {
        code + 32
    } else {
        code
    }
}

/// Whether `a` and `b` are equal but for the case of ASCII letters.
pub fn eq_ignore_ascii_case(a: &str, b: &str) -> (equal: bool)
    ensures
        equal == equal_ignoring_ascii_case(a@, b@),
{
    let len = a.unicode_len();
    if len != b.unicode_len() {
        return false;
    }
    let mut i: usize = 0;
    while i < len
        invariant
            len == a@.len(),
            len == b@.len(),
            i <= len,
            forall|j: int| 0 <= j < i ==> #[trigger] ascii_fold(a@[j]) == ascii_fold(b@[j]),
        decreases len - i,
    {
        if fold_char(a.get_char(i)) != fold_char(b.get_char(i)) {
            return false;
        }
        i += 1;
    }
    true
}

/// `pattern` occurs in `s`.
pub open spec fn has_infix(s: Seq<char>, pattern: Seq<char>) -> bool {
    exists|i: int| 0 <= i && i + pattern.len() <= s.len() && #[trigger] s.subrange(i, i + pattern.len()) == pattern
}

/// Whether `pattern` occurs in `s`.
pub fn contains_text(s: &str, pattern: &str) -> (found: bool)
    ensures
        found == has_infix(s@, pattern@),
{
    let len = s.unicode_len();
    let plen = pattern.unicode_len();
    if plen > len {
        assert forall|i: int| 0 <= i && i + pattern@.len() <= s@.len() implies #[trigger] s@.subrange(
            i,
            i + pattern@.len(),
        ) != pattern@ by {}
        return false;
    }
    if plen == 0 {
        assert(s@.subrange(0, 0int + pattern@.len()) =~= pattern@);
        return true;
    }
    let mut i: usize = 0;
    while i <= len - plen
        invariant
            len == s@.len(),
            plen == pattern@.len(),
            1 <= plen <= len,
            i <= len - plen + 1,
            forall|k: int| 0 <= k < i ==> #[trigger] s@.subrange(k, k + plen) != pattern@,
        decreases len - plen + 1 - i,
    {
        let mut j: usize = 0;
        let mut matched = true;
        while j < plen
            invariant
                len == s@.len(),
                plen == pattern@.len(),
                i + plen <= len,
                j <= plen,
                matched ==> forall|m: int| 0 <= m < j ==> s@[i + m] == pattern@[m],
                !matched ==> s@.subrange(i as int, i + plen) != pattern@,
            decreases plen - j,
        {
            if matched && s.get_char(i + j) != pattern.get_char(j) {
                matched = false;
                assert(s@.subrange(i as int, i + plen)[j as int] != pattern@[j as int]);
            }
            j += 1;
        }
        if matched {
            assert(s@.subrange(i as int, i + plen) =~= pattern@);
            return true;
        }
        i += 1;
    }
    false
}

/// The lower-case form of `s`, as Unicode defines it.
pub uninterp spec fn unicode_lowercase(s: Seq<char>) -> Seq<char>;

/// Calls `str::to_lowercase`. The contract claims only that the result is the
/// Unicode lower-case form of `s`, which depends on `s` alone; what that form
/// is, character by character, is left to the name `unicode_lowercase`.
#[verifier::external_body]
pub(crate) fn to_lowercase(s: &str) -> (lower: String)
    ensures
        lower@ == unicode_lowercase(s@),
{
    s.to_lowercase()
}

/// `c` is white space as Unicode's `White_Space` property defines it.
pub open spec fn is_white_space(c: char) -> bool {
    ||| '\u{9}' <= c <= '\u{d}'
    ||| c == ' '
    ||| c == '\u{85}'
    ||| c == '\u{a0}'
    ||| c == '\u{1680}'
    ||| '\u{2000}' <= c <= '\u{200a}'
    ||| c == '\u{2028}'
    ||| c == '\u{2029}'
    ||| c == '\u{202f}'
    ||| c == '\u{205f}'
    ||| c == '\u{3000}'
}

fn white_space(c: char) -> (ws: bool)
    ensures
        ws == is_white_space(c),
{
    ('\u{9}' <= c && c <= '\u{d}') || c == ' ' || c == '\u{85}' || c == '\u{a0}' || c == '\u{1680}'
        || ('\u{2000}' <= c && c <= '\u{200a}') || c == '\u{2028}' || c == '\u{2029}' || c == '\u{202f}'
        || c == '\u{205f}' || c == '\u{3000}'
}

/// `s` without the white space that begins it.
pub open spec fn trim_start_white_space(s: Seq<char>) -> Seq<char>
    decreases s.len(),
{
    if s.len() > 0 && is_white_space(s[0]) {
        trim_start_white_space(s.drop_first())
    } else {
        s
    }
}

/// `s` without the white space that ends it.
pub open spec fn trim_end_white_space(s: Seq<char>) -> Seq<char>
    decreases s.len(),
{
    if s.len() > 0 && is_white_space(s.last()) {
        trim_end_white_space(s.drop_last())
    } else {
        s
    }
}

/// `s` without the white space that begins and ends it.
pub open spec fn trim_white_space(s: Seq<char>) -> Seq<char> {
    trim_end_white_space(trim_start_white_space(s))
}

/// `s` without the white space that begins and ends it.
pub fn trim(s: &str) -> (trimmed: &str)
    ensures
        trimmed@ == trim_white_space(s@),
{
    let len = s.unicode_len();
    let mut start: usize = 0;
    assert(s@.subrange(0, len as int) =~= s@);
    while start < len
        invariant
            len == s@.len(),
            start <= len,
            trim_start_white_space(s@) == trim_start_white_space(s@.subrange(start as int, len as int)),
        ensures
            start <= len,
            trim_start_white_space(s@) == s@.subrange(start as int, len as int),
        decreases len - start,
    {
        if !white_space(s.get_char(start)) {
            break;
        }
        assert(s@.subrange(start as int, len as int).drop_first() =~= s@.subrange(start + 1, len as int));
        start += 1;
    }
    let mut end = len;
    while end > start
        invariant
            len == s@.len(),
            start <= end <= len,
            trim_start_white_space(s@) == s@.subrange(start as int, len as int),
            trim_white_space(s@) == trim_end_white_space(s@.subrange(start as int, end as int)),
        ensures
            start <= end <= len,
            trim_white_space(s@) == s@.subrange(start as int, end as int),
        decreases end,
    {
        if !white_space(s.get_char(end - 1)) {
            break;
        }
        assert(s@.subrange(start as int, end as int).drop_last() =~= s@.subrange(start as int, end - 1));
        end -= 1;
    }
    s.substring_char(start, end)
}


/// The white space of `char::is_whitespace`: the ASCII tab, line feed,
/// vertical tab, form feed, carriage return and space, then next line,
/// no-break space, Ogham space mark, the spaces from en quad to hair space,
/// line and paragraph separators, narrow no-break space, medium mathematical
/// space and ideographic space; and no other character.
pub proof fn lemma_white_space_characters(c: char)
    ensures
        is_white_space(c) <==> {
            ||| c == '\t' || c == '\n' || c == '\u{b}' || c == '\u{c}' || c == '\r' || c == ' '
            ||| c == '\u{85}' || c == '\u{a0}' || c == '\u{1680}'
            ||| c == '\u{2000}' || c == '\u{2001}' || c == '\u{2002}' || c == '\u{2003}'
            ||| c == '\u{2004}' || c == '\u{2005}' || c == '\u{2006}' || c == '\u{2007}'
            ||| c == '\u{2008}' || c == '\u{2009}' || c == '\u{200a}'
            ||| c == '\u{2028}' || c == '\u{2029}' || c == '\u{202f}' || c == '\u{205f}' || c == '\u{3000}'
        },
{
    assert('\u{9}' <= c <= '\u{d}' <==> (c == '\t' || c == '\n' || c == '\u{b}' || c == '\u{c}' || c == '\r'));
    assert('\u{2000}' <= c <= '\u{200a}' <==> (c == '\u{2000}' || c == '\u{2001}' || c == '\u{2002}'
        || c == '\u{2003}' || c == '\u{2004}' || c == '\u{2005}' || c == '\u{2006}' || c == '\u{2007}'
        || c == '\u{2008}' || c == '\u{2009}' || c == '\u{200a}'));
}

/// White space before `s` goes with the trimming of leading white space.
proof fn lemma_trim_start_skips(lead: Seq<char>, s: Seq<char>)
    requires
        forall|i: int| 0 <= i < lead.len() ==> is_white_space(#[trigger] lead[i]),
    ensures
        trim_start_white_space(lead + s) == trim_start_white_space(s),
    decreases lead.len(),
{
    if lead.len() > 0 {
        assert((lead + s).drop_first() =~= lead.drop_first() + s);
        lemma_trim_start_skips(lead.drop_first(), s);
    } else {
        assert(lead + s =~= s);
    }
}

/// White space after `s` goes with the trimming of trailing white space.
proof fn lemma_trim_end_skips(s: Seq<char>, trail: Seq<char>)
    requires
        forall|i: int| 0 <= i < trail.len() ==> is_white_space(#[trigger] trail[i]),
    ensures
        trim_end_white_space(s + trail) == trim_end_white_space(s),
    decreases trail.len(),
{
    if trail.len() > 0 {
        assert((s + trail).drop_last() =~= s + trail.drop_last());
        lemma_trim_end_skips(s, trail.drop_last());
    } else {
        assert(s + trail =~= s);
    }
}

/// Trimming removes exactly the white space around a text that neither
/// begins nor ends with white space, and leaves that text.
pub proof fn lemma_trim_removes_surrounding_white_space(lead: Seq<char>, core: Seq<char>, trail: Seq<char>)
    requires
        forall|i: int| 0 <= i < lead.len() ==> is_white_space(#[trigger] lead[i]),
        forall|i: int| 0 <= i < trail.len() ==> is_white_space(#[trigger] trail[i]),
        core.len() > 0 ==> !is_white_space(core[0]) && !is_white_space(core.last()),
    ensures
        trim_white_space(lead + core + trail) == core,
{
    assert(lead + core + trail =~= lead + (core + trail));
    lemma_trim_start_skips(lead, core + trail);
    if core.len() > 0 {
        assert((core + trail)[0] == core[0]);
        assert(trim_start_white_space(core + trail) == core + trail);
    } else {
        assert(core + trail =~= Seq::<char>::empty() + trail);
        lemma_trim_start_skips(trail, Seq::<char>::empty());
        assert(trail + Seq::<char>::empty() =~= trail);
        assert(trim_start_white_space(Seq::<char>::empty()) == Seq::<char>::empty());
        assert(trim_start_white_space(core + trail) == core);
        assert(core =~= Seq::<char>::empty());
        assert(trim_end_white_space(core) == core);
        return;
    }
    lemma_trim_end_skips(core, trail);
}


/// Two texts are equal but for ASCII case exactly when they have the same
/// length and each pair of characters has the same code, or is a capital
/// ASCII letter (code 65 to 90) and its small letter (32 further on), in
/// either order.
pub proof fn lemma_ascii_case_equality(a: Seq<char>, b: Seq<char>)
    ensures
        equal_ignoring_ascii_case(a, b) <==> {
            &&& a.len() == b.len()
            &&& forall|i: int|
                #![trigger a[i], b[i]]
                0 <= i < a.len() ==> {
                    ||| a[i] as u32 == b[i] as u32
                    ||| (65 <= a[i] as u32 <= 90 && b[i] as u32 == a[i] as u32 + 32)
                    ||| (65 <= b[i] as u32 <= 90 && a[i] as u32 == b[i] as u32 + 32)
                }
        },
{
    if a.len() == b.len() {
        assert forall|i: int| 0 <= i < a.len() implies (#[trigger] ascii_fold(a[i]) == ascii_fold(b[i]) <==> {
            ||| a[i] as u32 == b[i] as u32
            ||| (65 <= a[i] as u32 <= 90 && b[i] as u32 == a[i] as u32 + 32)
            ||| (65 <= b[i] as u32 <= 90 && a[i] as u32 == b[i] as u32 + 32)
        }) by {}
        if equal_ignoring_ascii_case(a, b) {
            assert forall|i: int|
                #![trigger a[i], b[i]]
                0 <= i < a.len() implies {
                    ||| a[i] as u32 == b[i] as u32
                    ||| (65 <= a[i] as u32 <= 90 && b[i] as u32 == a[i] as u32 + 32)
                    ||| (65 <= b[i] as u32 <= 90 && a[i] as u32 == b[i] as u32 + 32)
                } by {
                assert(ascii_fold(a[i]) == ascii_fold(b[i]));
            }
        } else {
            let i = choose|i: int| 0 <= i < a.len() && #[trigger] ascii_fold(a[i]) != ascii_fold(b[i]);
            assert(ascii_fold(a[i]) != ascii_fold(b[i]));
        }
    }
}


/// Trimming the ends of `s` of `c` leaves a text that does not end with `c`
/// and from which `s` follows by adding copies of `c` only.
pub proof fn lemma_trim_end_char_strips_only_that_char(s: Seq<char>, c: char)
    ensures
        s.len() >= trim_end_char(s, c).len(),
        s.subrange(0, trim_end_char(s, c).len() as int) == trim_end_char(s, c),
        forall|i: int| trim_end_char(s, c).len() <= i < s.len() ==> #[trigger] s[i] == c,
        trim_end_char(s, c).len() == 0 || trim_end_char(s, c).last() != c,
    decreases s.len(),
{
    if s.len() > 0 && s.last() == c {
        lemma_trim_end_char_strips_only_that_char(s.drop_last(), c);
        let r = trim_end_char(s, c);
        assert(s.subrange(0, r.len() as int) =~= s.drop_last().subrange(0, r.len() as int));
        assert forall|i: int| r.len() <= i < s.len() implies #[trigger] s[i] == c by {
            if i < s.len() - 1 {
                assert(s[i] == s.drop_last()[i]);
            }
        }
    } else {
        assert(s.subrange(0, s.len() as int) =~= s);
    }
}

} // verus!
