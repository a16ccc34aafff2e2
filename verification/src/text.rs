//! White space at the ends of a text.

use vstd::prelude::*;

verus! {

/// Whether a character has the Unicode property `White_Space`.
pub open spec fn is_white_space(c: char) -> bool {
    ||| '\u{9}' <= c <= '\u{d}'
    ||| c == '\u{20}'
    ||| c == '\u{85}'
    ||| c == '\u{a0}'
    ||| c == '\u{1680}'
    ||| '\u{2000}' <= c <= '\u{200a}'
    ||| c == '\u{2028}'
    ||| c == '\u{2029}'
    ||| c == '\u{202f}'
    ||| c == '\u{205f}'
    ||| c == '\u{3000}'
}

/// A text without its leading white space.
pub open spec fn without_leading(text: Seq<char>) -> Seq<char>
    decreases text.len(),
{
    if text.len() > 0 && is_white_space(text.first()) {
        without_leading(text.drop_first())
    } else {
        text
    }
}

/// A text without its trailing white space.
pub open spec fn without_trailing(text: Seq<char>) -> Seq<char>
    decreases text.len(),
{
    if text.len() > 0 && is_white_space(text.last()) {
        without_trailing(text.drop_last())
    } else {
        text
    }
}

/// A text without the white space at both ends.
pub open spec fn trimmed(text: Seq<char>) -> Seq<char> {
    without_trailing(without_leading(text))
}

/// Whether a text holds nothing but white space.
pub open spec fn is_blank(text: Seq<char>) -> bool {
    forall|i: int| 0 <= i < text.len() ==> is_white_space(#[trigger] text[i])
}

/// Whether a text neither starts nor ends with white space.
pub open spec fn has_no_outer_space(text: Seq<char>) -> bool {
    text.len() > 0 ==> !is_white_space(text.first()) && !is_white_space(text.last())
}

/// `str::trim` of the standard library removes the leading and the trailing
/// characters with the Unicode property `White_Space` and nothing else.
pub assume_specification[ str::trim ](text: &str) -> (r: &str)
    ensures
        r@ == trimmed(text@),
;

proof fn lemma_without_leading(text: Seq<char>)
    ensures
        without_leading(text).len() > 0 ==> !is_white_space(without_leading(text).first())
            && without_leading(text).last() == text.last(),
        without_leading(text).len() <= text.len(),
        without_leading(text).len() == 0 <==> is_blank(text),
    decreases text.len(),
{
    if text.len() > 0 && is_white_space(text.first()) {
        let rest = text.drop_first();
        lemma_without_leading(rest);
        assert forall|i: int| is_blank(rest) && 0 <= i < text.len() implies is_white_space(
            #[trigger] text[i],
        ) by {
            if i > 0 {
                assert(is_white_space(rest[i - 1]));
            }
        }
        assert forall|i: int| is_blank(text) && 0 <= i < rest.len() implies is_white_space(
            #[trigger] rest[i],
        ) by {
            assert(is_white_space(text[i + 1]));
        }
    }
}

proof fn lemma_without_trailing(text: Seq<char>)
    ensures
        without_trailing(text).len() > 0 ==> !is_white_space(without_trailing(text).last())
            && without_trailing(text).first() == text.first(),
        without_trailing(text).len() <= text.len(),
        without_trailing(text).len() == 0 <==> is_blank(text),
    decreases text.len(),
{
    if text.len() > 0 && is_white_space(text.last()) {
        let rest = text.drop_last();
        lemma_without_trailing(rest);
        assert forall|i: int| is_blank(rest) && 0 <= i < text.len() implies is_white_space(
            #[trigger] text[i],
        ) by {
            if i < rest.len() {
                assert(is_white_space(rest[i]));
            }
        }
        assert forall|i: int| is_blank(text) && 0 <= i < rest.len() implies is_white_space(
            #[trigger] rest[i],
        ) by {
            assert(is_white_space(text[i]));
        }
    }
}

/// A trimmed text has no white space at its ends, and nothing is left of a text
/// exactly when it was blank.
pub proof fn law_trimmed(text: Seq<char>)
    ensures
        has_no_outer_space(trimmed(text)),
        trimmed(text).len() == 0 <==> is_blank(text),
{
    let middle = without_leading(text);
    lemma_without_leading(text);
    lemma_without_trailing(middle);
    if middle.len() > 0 {
        assert(!is_white_space(middle[0]));
    }
}

/// A text without white space at its ends is not changed by trimming.
pub proof fn law_trimmed_is_kept(text: Seq<char>)
    requires
        has_no_outer_space(text),
    ensures
        trimmed(text) == text,
{
}

/// What counts as white space, by code point.
pub proof fn law_white_space(c: char)
    ensures
        is_white_space(c) <==> {
            let n = c as u32;
            ||| 9 <= n <= 13
            ||| n == 32
            ||| n == 133
            ||| n == 160
            ||| n == 5760
            ||| 8192 <= n <= 8202
            ||| n == 8232
            ||| n == 8233
            ||| n == 8239
            ||| n == 8287
            ||| n == 12288
        },
{
}

proof fn lemma_leading_part(text: Seq<char>) -> (start: int)
    ensures
        0 <= start <= text.len(),
        without_leading(text) == text.skip(start),
        forall|i: int| 0 <= i < start ==> is_white_space(#[trigger] text[i]),
        start < text.len() ==> !is_white_space(text[start]),
    decreases text.len(),
{
    if text.len() > 0 && is_white_space(text.first()) {
        let rest = text.drop_first();
        let start = lemma_leading_part(rest);
        assert(rest.skip(start) =~= text.skip(start + 1));
        assert forall|i: int| 0 <= i < start + 1 implies is_white_space(#[trigger] text[i]) by {
            if i > 0 {
                assert(is_white_space(rest[i - 1]));
            }
        }
        start + 1
    } else {
        assert(text.skip(0) =~= text);
        0
    }
}

proof fn lemma_trailing_part(text: Seq<char>) -> (end: int)
    ensures
        0 <= end <= text.len(),
        without_trailing(text) == text.take(end),
        forall|i: int| end <= i < text.len() ==> is_white_space(#[trigger] text[i]),
        end > 0 ==> !is_white_space(text[end - 1]),
    decreases text.len(),
{
    if text.len() > 0 && is_white_space(text.last()) {
        let rest = text.drop_last();
        let end = lemma_trailing_part(rest);
        assert(rest.take(end) =~= text.take(end));
        assert forall|i: int| end <= i < text.len() implies is_white_space(#[trigger] text[i]) by {
            if i < rest.len() {
                assert(is_white_space(rest[i]));
            }
        }
        end
    } else {
        assert(text.take(text.len() as int) =~= text);
        text.len() as int
    }
}

/// Trimming cuts white space off both ends and changes nothing in between: what
/// is left is the part of the text between its first and its last character that
/// is not white space.
pub proof fn law_trimmed_is_the_middle(text: Seq<char>)
    ensures
        exists|start: int, end: int|
            {
                &&& 0 <= start <= end <= text.len()
                &&& trimmed(text) == #[trigger] text.subrange(start, end)
                &&& forall|i: int|
                    0 <= i < start || end <= i < text.len() ==> is_white_space(#[trigger] text[i])
                &&& start < end ==> !is_white_space(text[start]) && !is_white_space(text[end - 1])
            },
{
    let start = lemma_leading_part(text);
    let middle = text.skip(start);
    let length = lemma_trailing_part(middle);
    let end = start + length;
    assert(middle.take(length) =~= text.subrange(start, end));
    assert forall|i: int| 0 <= i < start || end <= i < text.len() implies is_white_space(
        #[trigger] text[i],
    ) by {
        if i >= end {
            assert(is_white_space(middle[i - start]));
        }
    }
    if start < end {
        assert(!is_white_space(middle[length - 1]));
    }
}

} // verus!
