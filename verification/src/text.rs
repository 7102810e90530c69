//! Strings as sequences of characters: the handful of text operations the other modules share.

use vstd::prelude::*;
use vstd::string::*;
use vstd::utf8::*;

verus! {

/// The Unicode `White_Space` property.
pub open spec fn is_white_space(c: char) -> bool {
    let p = c as u32;
    ||| 0x9 <= p <= 0xd
    ||| p == 0x20
    ||| p == 0x85
    ||| p == 0xa0
    ||| p == 0x1680
    ||| 0x2000 <= p <= 0x200a
    ||| p == 0x2028
    ||| p == 0x2029
    ||| p == 0x202f
    ||| p == 0x205f
    ||| p == 0x3000
}

/// `s` without its leading and trailing white space.
pub open spec fn trimmed(s: Seq<char>) -> Seq<char>
    decreases s.len(),
{
    if s.len() > 0 && is_white_space(s[0]) {
        trimmed(s.drop_first())
    } else if s.len() > 0 && is_white_space(s.last()) {
        trimmed(s.drop_last())
    } else {
        s
    }
}

/// Whether `pattern` occurs somewhere in `s`.
pub open spec fn has_substring(s: Seq<char>, pattern: Seq<char>) -> bool {
    exists|i: int|
        0 <= i && i + pattern.len() <= s.len() && #[trigger] s.subrange(i, i + pattern.len())
            == pattern
}

/// Whether `s` ends in `suffix`.
pub open spec fn has_suffix(s: Seq<char>, suffix: Seq<char>) -> bool {
    suffix.len() <= s.len() && s.subrange(s.len() - suffix.len(), s.len() as int) == suffix
}

/// The upper-case form of an ASCII character; other characters stay as they are.
pub open spec fn ascii_upper(c: char) -> char {
    if 'a' <= c && c <= 'z' {
        ((c as u32) - 32) as char
    } else {
        c
    }
}

/// The lower-case form of an ASCII character; other characters stay as they are.
pub open spec fn ascii_lower(c: char) -> char {
    if 'A' <= c && c <= 'Z' {
        ((c as u32) + 32) as char
    } else {
        c
    }
}

/// What a list of strings stands for.
pub open spec fn text_views(texts: Seq<String>) -> Seq<Seq<char>> {
    texts.map_values(|t: String| t@)
}

/// What `str::to_uppercase` returns: the Unicode upper-case mapping, which may change the length.
pub uninterp spec fn uppercase(s: Seq<char>) -> Seq<char>;

/// Calls `str::trim`: everything but the leading and trailing Unicode white space.
#[verifier::external_body]
pub(crate) fn trim(s: &str) -> (r: &str)
    ensures
        r@ == trimmed(s@),
{
    s.trim()
}

/// Calls `str::to_uppercase`. The result is named; of ASCII text it is the text with each of
/// the letters `a` to `z` replaced by its capital. Characters are mapped one by one and a capital
/// stays what it is, so that it makes no difference whether those letters were replaced before.
#[verifier::external_body]
pub(crate) fn to_uppercase(s: &str) -> (r: String)
    ensures
        r@ == uppercase(s@),
        is_ascii_chars(s@) ==> r@ == s@.map_values(|c: char| ascii_upper(c)),
        r@ == uppercase(s@.map_values(|c: char| ascii_upper(c))),
{
    s.to_uppercase()
}

/// Calls `str::contains` with a string pattern.
#[verifier::external_body]
pub(crate) fn contains(s: &str, pattern: &str) -> (r: bool)
    ensures
        r == has_substring(s@, pattern@),
{
    s.contains(pattern)
}

/// Calls `str::ends_with` with a string pattern.
#[verifier::external_body]
pub(crate) fn ends_with(s: &str, suffix: &str) -> (r: bool)
    ensures
        r == has_suffix(s@, suffix@),
{
    s.ends_with(suffix)
}

/// Calls `str::split_once`: splits at the first occurrence of `separator`, if there is one.
#[verifier::external_body]
pub(crate) fn split_once(s: &str, separator: char) -> (r: Option<(&str, &str)>)
    ensures
        match r {
            Some((before, after)) => s@ == before@.push(separator) + after@ && !before@.contains(
                separator,
            ),
            None => !s@.contains(separator),
        },
{
    s.split_once(separator)
}

/// Calls `std::str::from_utf8`, which succeeds for valid UTF-8 only, and says whether it did.
#[verifier::external_body]
pub(crate) fn is_utf8(bytes: &[u8]) -> (r: bool)
    ensures
        r == vstd::utf8::valid_utf8(bytes@),
{
    std::str::from_utf8(bytes).is_ok()
}

/// `String::push` appends the character.
pub assume_specification[ std::string::String::push ](s: &mut std::string::String, c: char)
    ensures
        final(s)@ == old(s)@.push(c),
;

/// Whether two strings hold the same characters.
pub fn same_text(a: &str, b: &str) -> (r: bool)
    ensures
        r == (a@ == b@),
{
    broadcast use encode_utf8_decode_utf8;

    let x: &[u8] = a.as_bytes();
    let y: &[u8] = b.as_bytes();
    if x.len() != y.len() {
        return false;
    }
    let n: usize = x.len();
    let mut i: usize = 0;
    while i < n
        invariant
            i <= n,
            n == x@.len(),
            n == y@.len(),
            forall|k: int| 0 <= k < i ==> x@[k] == y@[k],
            x@ == a.spec_bytes(),
            y@ == b.spec_bytes(),
        decreases n - i,
    {
        if x[i] != y[i] {
            assert(a@ != b@);
            return false;
        }
        i += 1;
    }
    assert(x@ =~= y@);
    assert(decode_utf8(encode_utf8(a@)) == a@);
    assert(decode_utf8(encode_utf8(b@)) == b@);
    true
}

/// The characters of a string.
pub fn chars_of(s: &str) -> (r: Vec<char>)
    ensures
        r@ == s@,
{
    let mut r: Vec<char> = Vec::new();
    for c in it: s.chars()
        invariant
            r@.len() == it.index(),
            it.seq() == s@,
            forall|k: int| 0 <= k < r@.len() ==> r@[k] == it.seq()[k],
    {
        r.push(c);
    }
    assert(r@ =~= s@);
    r
}

/// The parts of `s` between the occurrences of `separator`.
pub open spec fn split_on(s: Seq<char>, separator: char) -> Seq<Seq<char>>
    decreases s.len(),
{
    if s.len() == 0 {
        seq![Seq::empty()]
    } else {
        let before = split_on(s.drop_last(), separator);
        if s.last() == separator {
            before.push(Seq::empty())
        } else {
            before.update(before.len() - 1, before.last().push(s.last()))
        }
    }
}

/// Splits a string at every separator.
pub fn split_text(s: &str, separator: char) -> (r: Vec<String>)
    ensures
        text_views(r@) == split_on(s@, separator),
{
    let chars: Vec<char> = chars_of(s);
    let mut done: Vec<String> = Vec::new();
    let mut part: String = String::new();
    let mut i: usize = 0;
    assert(chars@.take(0) =~= Seq::empty());
    while i < chars.len()
        invariant
            chars@ == s@,
            i <= chars@.len(),
            text_views(done@).push(part@) =~= split_on(chars@.take(i as int), separator),
        decreases chars@.len() - i,
    {
        let c: char = chars[i];
        let ghost before = text_views(done@).push(part@);
        assert(chars@.take(i + 1).drop_last() =~= chars@.take(i as int));
        assert(chars@.take(i + 1).last() == c);
        if c == separator {
            done.push(part);
            part = String::new();
            assert(text_views(done@) =~= before);
        } else {
            part.push(c);
            assert(text_views(done@).push(part@) =~= before.update(
                before.len() - 1,
                before.last().push(c),
            ));
        }
        i += 1;
    }
    assert(chars@.take(i as int) =~= chars@);
    let ghost finished = text_views(done@).push(part@);
    done.push(part);
    assert(text_views(done@) =~= finished);
    done
}

/// `parts` with the separator between them.
pub open spec fn joined(parts: Seq<Seq<char>>, separator: char) -> Seq<char>
    decreases parts.len(),
{
    if parts.len() == 0 {
        Seq::empty()
    } else if parts.len() == 1 {
        parts[0]
    } else {
        joined(parts.drop_last(), separator).push(separator) + parts.last()
    }
}

/// The parts of a split text hold no separator, and joined they are the text.
pub proof fn split_then_joined(s: Seq<char>, separator: char)
    ensures
        split_on(s, separator).len() > 0,
        forall|i: int|
            0 <= i < split_on(s, separator).len() ==> !(#[trigger] split_on(
                s,
                separator,
            )[i]).contains(separator),
        joined(split_on(s, separator), separator) == s,
    decreases s.len(),
{
    if s.len() > 0 {
        let before = split_on(s.drop_last(), separator);
        split_then_joined(s.drop_last(), separator);
        assert(s =~= s.drop_last().push(s.last()));
        let after = split_on(s, separator);
        if s.last() == separator {
            assert(after.drop_last() =~= before);
            assert(joined(after, separator) =~= s);
        } else {
            let part = before.last().push(s.last());
            assert(after.drop_last() =~= before.drop_last());
            assert(!part.contains(separator)) by {
                if part.contains(separator) {
                    let k = choose|k: int| 0 <= k < part.len() && part[k] == separator;
                    assert(before.last()[k] == separator);
                }
            }
            assert(joined(after, separator) =~= joined(before, separator).push(s.last()));
        }
    }
}

/// Text without a separator goes to the last part.
proof fn split_grown(s: Seq<char>, t: Seq<char>, separator: char)
    requires
        !t.contains(separator),
    ensures
        split_on(s + t, separator).len() == split_on(s, separator).len(),
        split_on(s, separator).len() > 0,
        split_on(s + t, separator) == split_on(s, separator).update(
            split_on(s, separator).len() - 1,
            split_on(s, separator).last() + t,
        ),
    decreases t.len(),
{
    split_then_joined(s, separator);
    let parts = split_on(s, separator);
    if t.len() == 0 {
        assert(s + t =~= s);
        assert(parts.last() + t =~= parts.last());
        assert(parts.update(parts.len() - 1, parts.last()) =~= parts);
    } else {
        let shorter = t.drop_last();
        assert(!shorter.contains(separator)) by {
            if shorter.contains(separator) {
                let k = choose|k: int| 0 <= k < shorter.len() && shorter[k] == separator;
                assert(t[k] == separator);
            }
        }
        split_grown(s, shorter, separator);
        assert((s + t).drop_last() =~= s + shorter);
        assert((s + t).last() == t.last());
        assert(t[t.len() - 1] == t.last());
        assert((parts.last() + shorter).push(t.last()) =~= parts.last() + t);
        assert(split_on(s + t, separator) =~= parts.update(parts.len() - 1, parts.last() + t));
    }
}

/// Parts that hold no separator come back when what they are joined to is split.
pub proof fn joined_then_split(parts: Seq<Seq<char>>, separator: char)
    requires
        parts.len() > 0,
        forall|i: int| 0 <= i < parts.len() ==> !(#[trigger] parts[i]).contains(separator),
    ensures
        split_on(joined(parts, separator), separator) == parts,
    decreases parts.len(),
{
    let none = Seq::<char>::empty();
    if parts.len() == 1 {
        split_grown(none, parts[0], separator);
        assert(none + parts[0] =~= parts[0]);
        assert(split_on(parts[0], separator) =~= parts);
    } else {
        let shorter = parts.drop_last();
        joined_then_split(shorter, separator);
        let opened = joined(shorter, separator).push(separator);
        assert(opened.drop_last() =~= joined(shorter, separator));
        split_grown(opened, parts.last(), separator);
        assert(none + parts.last() =~= parts.last());
        assert(split_on(opened + parts.last(), separator) =~= parts);
    }
}

/// Trimming takes the white space off both ends and nothing else.
pub proof fn trimming_takes_white_space_off(before: Seq<char>, s: Seq<char>, after: Seq<char>)
    requires
        forall|i: int| 0 <= i < before.len() ==> is_white_space(#[trigger] before[i]),
        forall|i: int| 0 <= i < after.len() ==> is_white_space(#[trigger] after[i]),
        s.len() > 0 ==> !is_white_space(s[0]) && !is_white_space(s.last()),
    ensures
        trimmed(before + s + after) == s,
    decreases before.len() + after.len(),
{
    let all = before + s + after;
    if before.len() > 0 {
        assert(all[0] == before[0]);
        assert(all.drop_first() =~= before.drop_first() + s + after);
        assert forall|i: int| 0 <= i < before.drop_first().len() implies is_white_space(
            #[trigger] before.drop_first()[i],
        ) by {
            assert(is_white_space(before[i + 1]));
        }
        trimming_takes_white_space_off(before.drop_first(), s, after);
    } else if after.len() > 0 {
        if s.len() > 0 {
            assert(all[0] == s[0]);
            assert(all.last() == after.last());
            assert(is_white_space(after[after.len() - 1]));
            assert(all.drop_last() =~= before + s + after.drop_last());
            assert forall|i: int| 0 <= i < after.drop_last().len() implies is_white_space(
                #[trigger] after.drop_last()[i],
            ) by {
                assert(is_white_space(after[i]));
            }
            trimming_takes_white_space_off(before, s, after.drop_last());
        } else {
            assert(all =~= after);
            assert(is_white_space(after[0]));
            assert(all.drop_first() =~= before + s + after.drop_first());
            assert forall|i: int| 0 <= i < after.drop_first().len() implies is_white_space(
                #[trigger] after.drop_first()[i],
            ) by {
                assert(is_white_space(after[i + 1]));
            }
            trimming_takes_white_space_off(before, s, after.drop_first());
        }
    } else {
        assert(all =~= s);
    }
}

} // verus!
