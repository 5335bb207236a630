//! Names in the cases that the emitters write: `snake_case`, `MACRO_CASE`,
//! `PascalCase`.

use crate::text::{chars_of, split, split_text, string_of, views};
use vstd::prelude::*;

verus! {

/// What `stringcase::macro_case` makes of a text.
pub uninterp spec fn macro_case_of(input: Seq<char>) -> Seq<char>;

/// What `stringcase::snake_case` makes of a text.
pub uninterp spec fn snake_case_of(input: Seq<char>) -> Seq<char>;

/// What `stringcase::pascal_case` makes of a text.
pub uninterp spec fn pascal_case_of(input: Seq<char>) -> Seq<char>;

/// What `str::to_uppercase` makes of a text that is not all ASCII.
pub uninterp spec fn uppercase_of(input: Seq<char>) -> Seq<char>;

/// What `str::to_lowercase` makes of a text that is not all ASCII.
pub uninterp spec fn lowercase_of(input: Seq<char>) -> Seq<char>;

/// Whether `char::is_uppercase` holds of a character that is not ASCII.
pub uninterp spec fn is_uppercase_char(c: char) -> bool;

/// The characters that `char::to_uppercase` gives for a character that is
/// not ASCII.
pub uninterp spec fn uppercase_chars(c: char) -> Seq<char>;

/// The characters that `char::to_lowercase` gives for a character that is
/// not ASCII.
pub uninterp spec fn lowercase_chars(c: char) -> Seq<char>;

/// Whether a character is one of the 128 ASCII characters.
pub open spec fn is_ascii(c: char) -> bool {
    c <= '\x7f'
}

/// Whether every character of a text is an ASCII character.
pub open spec fn is_ascii_text(s: Seq<char>) -> bool {
    forall|i: int| 0 <= i < s.len() ==> is_ascii(#[trigger] s[i])
}

/// A text with each ASCII small letter as its capital.
pub open spec fn ascii_upper_text(s: Seq<char>) -> Seq<char> {
    Seq::new(s.len(), |i: int| ascii_upper(s[i]))
}

/// A text with each ASCII capital as its small letter.
pub open spec fn ascii_lower_text(s: Seq<char>) -> Seq<char> {
    Seq::new(s.len(), |i: int| ascii_lower(s[i]))
}

/// A text in upper case: an ASCII text with each small letter as its
/// capital, another text as `str::to_uppercase` gives it.
pub open spec fn upper_text(s: Seq<char>) -> Seq<char> {
    if is_ascii_text(s) {
        ascii_upper_text(s)
    } else {
        uppercase_of(s)
    }
}

/// A text in lower case: an ASCII text with each capital as its small
/// letter, another text as `str::to_lowercase` gives it.
pub open spec fn lower_text(s: Seq<char>) -> Seq<char> {
    if is_ascii_text(s) {
        ascii_lower_text(s)
    } else {
        lowercase_of(s)
    }
}

/// Whether a character is a capital: of the ASCII characters `A` to `Z`,
/// of the others those that `char::is_uppercase` holds of.
pub open spec fn is_capital(c: char) -> bool {
    if is_ascii(c) {
        'A' <= c && c <= 'Z'
    } else {
        is_uppercase_char(c)
    }
}

/// A character in lower case: for an ASCII character its ASCII small
/// letter or itself, for another what `char::to_lowercase` gives.
pub open spec fn small_letters(c: char) -> Seq<char> {
    if is_ascii(c) {
        seq![ascii_lower(c)]
    } else {
        lowercase_chars(c)
    }
}

/// A character in upper case: for an ASCII character its ASCII capital or
/// itself, for another what `char::to_uppercase` gives.
pub open spec fn capital_letters(c: char) -> Seq<char> {
    if is_ascii(c) {
        seq![ascii_upper(c)]
    } else {
        uppercase_chars(c)
    }
}

/// `stringcase::macro_case` is a function of its input alone: it walks the
/// characters once and builds the result from them.
#[verifier::external_body]
pub(crate) fn macro_case(input: &str) -> (r: String)
    ensures
        r@ == macro_case_of(input@),
{
    stringcase::macro_case(input)
}

/// `stringcase::snake_case` is a function of its input alone.
#[verifier::external_body]
pub(crate) fn snake_case(input: &str) -> (r: String)
    ensures
        r@ == snake_case_of(input@),
{
    stringcase::snake_case(input)
}

/// `stringcase::pascal_case` is a function of its input alone.
#[verifier::external_body]
pub(crate) fn pascal_case(input: &str) -> (r: String)
    ensures
        r@ == pascal_case_of(input@),
{
    stringcase::pascal_case(input)
}

/// `str::to_uppercase` is a function of its input alone. Of an ASCII text
/// it gives the text with each small letter `a` to `z` as its capital.
#[verifier::external_body]
pub(crate) fn to_uppercase(input: &str) -> (r: String)
    ensures
        r@ == (if is_ascii_text(input@) {
            ascii_upper_text(input@)
        } else {
            uppercase_of(input@)
        }),
{
    input.to_uppercase()
}

/// `str::to_lowercase` is a function of its input alone. Of an ASCII text
/// it gives the text with each capital `A` to `Z` as its small letter.
#[verifier::external_body]
pub(crate) fn to_lowercase(input: &str) -> (r: String)
    ensures
        r@ == (if is_ascii_text(input@) {
            ascii_lower_text(input@)
        } else {
            lowercase_of(input@)
        }),
{
    input.to_lowercase()
}

/// `char::is_uppercase` is a property of the character alone. Of the
/// ASCII characters exactly `A` to `Z` have it.
#[verifier::external_body]
pub(crate) fn is_uppercase(c: char) -> (r: bool)
    ensures
        r == (if is_ascii(c) {
            'A' <= c && c <= 'Z'
        } else {
            is_uppercase_char(c)
        }),
{
    c.is_uppercase()
}

/// `char::to_uppercase` gives characters that depend on the character
/// alone. For an ASCII character it gives one character: the capital of a
/// small letter `a` to `z`, and any other character itself.
#[verifier::external_body]
pub(crate) fn char_to_uppercase(c: char) -> (r: Vec<char>)
    ensures
        r@ == (if is_ascii(c) {
            seq![ascii_upper(c)]
        } else {
            uppercase_chars(c)
        }),
{
    c.to_uppercase().collect()
}

/// `char::to_lowercase` gives characters that depend on the character
/// alone. For an ASCII character it gives one character: the small letter
/// of a capital `A` to `Z`, and any other character itself.
#[verifier::external_body]
pub(crate) fn char_to_lowercase(c: char) -> (r: Vec<char>)
    ensures
        r@ == (if is_ascii(c) {
            seq![ascii_lower(c)]
        } else {
            lowercase_chars(c)
        }),
{
    c.to_lowercase().collect()
}

/// An ASCII capital as its small letter; any other character as it is.
pub open spec fn ascii_lower(c: char) -> char {
    if 'A' <= c && c <= 'Z' {
        ((c as int) + 32) as char
    } else {
        c
    }
}

/// An ASCII small letter as its capital; any other character as it is.
pub open spec fn ascii_upper(c: char) -> char {
    if 'a' <= c && c <= 'z' {
        ((c as int) - 32) as char
    } else {
        c
    }
}

/// The ASCII small letter of a capital; any other character as it is.
pub fn to_ascii_lower(c: char) -> (r: char)
    ensures
        r == ascii_lower(c),
{
    if 'A' <= c && c <= 'Z' {
        let code: u8 = c as u8;
        (code + 32) as char
    } else {
        c
    }
}

/// The ASCII capital of a small letter; any other character as it is.
pub fn to_ascii_upper(c: char) -> (r: char)
    ensures
        r == ascii_upper(c),
{
    if 'a' <= c && c <= 'z' {
        let code: u8 = c as u8;
        (code - 32) as char
    } else {
        c
    }
}

/// A name in snake case, read from the left: `-` becomes `_`, a capital
/// becomes its small letters, with `_` before it where a character that is
/// neither a capital nor `-` stands before. The flag says whether the last
/// character was such a one.
pub open spec fn snake_case_fold(s: Seq<char>) -> (Seq<char>, bool)
    decreases s.len(),
{
    if s.len() == 0 {
        (Seq::empty(), false)
    } else {
        let (out, after_small) = snake_case_fold(s.drop_last());
        let c = s.last();
        if c == '-' {
            (out.push('_'), false)
        } else if is_capital(c) {
            if after_small {
                (out.push('_') + small_letters(c), false)
            } else {
                (out + small_letters(c), false)
            }
        } else {
            (out.push(c), true)
        }
    }
}

/// A Pascal-case name in snake case: each capital becomes its ASCII small
/// letter, with `_` before it unless it is the first character.
pub open spec fn pascal_to_snake_text(s: Seq<char>) -> Seq<char>
    decreases s.len(),
{
    if s.len() == 0 {
        Seq::empty()
    } else {
        let out = pascal_to_snake_text(s.drop_last());
        let c = s.last();
        if is_capital(c) {
            if s.len() > 1 {
                out.push('_').push(ascii_lower(c))
            } else {
                out.push(ascii_lower(c))
            }
        } else {
            out.push(c)
        }
    }
}

/// A Pascal-case name in macro case: each character becomes its ASCII
/// capital, with `_` before a capital unless it is the first character.
pub open spec fn pascal_to_macro_text(s: Seq<char>) -> Seq<char>
    decreases s.len(),
{
    if s.len() == 0 {
        Seq::empty()
    } else {
        let out = pascal_to_macro_text(s.drop_last());
        let c = s.last();
        if is_capital(c) && s.len() > 1 {
            out.push('_').push(ascii_upper(c))
        } else {
            out.push(ascii_upper(c))
        }
    }
}

/// A word with its first character in upper case.
pub open spec fn capitalized(word: Seq<char>) -> Seq<char> {
    if word.len() == 0 {
        Seq::empty()
    } else {
        capital_letters(word[0]) + word.skip(1)
    }
}

/// The words, each with its first character in upper case, one after the
/// other.
pub open spec fn capitalized_words(words: Seq<Seq<char>>) -> Seq<char>
    decreases words.len(),
{
    if words.len() == 0 {
        Seq::empty()
    } else {
        capitalized_words(words.drop_last()) + capitalized(words.last())
    }
}

/// A snake-case name in Pascal case.
pub open spec fn pascal_case_text(s: Seq<char>) -> Seq<char> {
    capitalized_words(split(s, '_'))
}

/// Writes a name in Pascal case: the words between `_`, each with its
/// first character in upper case.
pub fn to_pascal_case(s: &str) -> (r: String)
    ensures
        r@ == pascal_case_text(s@),
{
    let chars = chars_of(s);
    let words = split_text(&chars, '_');
    let mut out: Vec<char> = Vec::new();
    let mut i: usize = 0;
    assert(views(words@).take(0) =~= Seq::<Seq<char>>::empty());
    while i < words.len()
        invariant
            i <= words.len(),
            out@ == capitalized_words(views(words@).take(i as int)),
        decreases words.len() - i,
    {
        proof {
            let next = views(words@).take(i + 1);
            assert(next.drop_last() =~= views(words@).take(i as int));
            assert(next.last() == words@[i as int]@);
        }
        let word = &words[i];
        let ghost before = out@;
        if word.len() > 0 {
            let mut head = char_to_uppercase(word[0]);
            out.append(&mut head);
            let mut j: usize = 1;
            assert(word@.skip(1).take(0) =~= Seq::<char>::empty());
            while j < word.len()
                invariant
                    1 <= j <= word.len(),
                    out@ == before + capital_letters(word@[0]) + word@.skip(1).take(j - 1),
                decreases word.len() - j,
            {
                out.push(word[j]);
                assert(word@.skip(1).take(j - 1).push(word@[j as int]) =~= word@.skip(1).take(
                    j as int,
                ));
                j += 1;
            }
            assert(word@.skip(1).take(word.len() - 1) =~= word@.skip(1));
            assert(out@ =~= before + capitalized(word@));
        } else {
            assert(out@ =~= before + capitalized(word@));
        }
        i += 1;
    }
    assert(views(words@).take(words.len() as int) =~= views(words@));
    string_of(&out)
}

/// Writes a Pascal-case name in snake case.
pub fn pascal_to_snake_case(input: &str) -> (r: String)
    ensures
        r@ == pascal_to_snake_text(input@),
{
    let chars = chars_of(input);
    let mut out: Vec<char> = Vec::new();
    let mut i: usize = 0;
    assert(chars@.take(0) =~= Seq::<char>::empty());
    while i < chars.len()
        invariant
            i <= chars.len(),
            out@ == pascal_to_snake_text(chars@.take(i as int)),
        decreases chars.len() - i,
    {
        proof {
            let next = chars@.take(i + 1);
            assert(next.drop_last() =~= chars@.take(i as int));
        }
        let c: char = chars[i];
        if is_uppercase(c) {
            if i != 0 {
                out.push('_');
            }
            out.push(to_ascii_lower(c));
        } else {
            out.push(c);
        }
        i += 1;
    }
    assert(chars@.take(chars.len() as int) =~= chars@);
    string_of(&out)
}

/// Writes a name in snake case.
pub fn to_snake_case(s: &str) -> (r: String)
    ensures
        r@ == snake_case_fold(s@).0,
{
    let chars = chars_of(s);
    let mut out: Vec<char> = Vec::new();
    let mut prev_lower: bool = false;
    let mut i: usize = 0;
    assert(chars@.take(0) =~= Seq::<char>::empty());
    while i < chars.len()
        invariant
            i <= chars.len(),
            (out@, prev_lower) == snake_case_fold(chars@.take(i as int)),
        decreases chars.len() - i,
    {
        proof {
            let next = chars@.take(i + 1);
            assert(next.drop_last() =~= chars@.take(i as int));
        }
        let ch: char = chars[i];
        if ch == '-' {
            out.push('_');
            prev_lower = false;
        } else if is_uppercase(ch) {
            if prev_lower {
                out.push('_');
            }
            let mut small = char_to_lowercase(ch);
            out.append(&mut small);
            prev_lower = false;
        } else {
            out.push(ch);
            prev_lower = true;
        }
        i += 1;
    }
    assert(chars@.take(chars.len() as int) =~= chars@);
    string_of(&out)
}

/// Writes a Pascal-case name in macro case.
pub fn pascal_to_macro_case(input: &str) -> (r: String)
    ensures
        r@ == pascal_to_macro_text(input@),
{
    let chars = chars_of(input);
    let mut out: Vec<char> = Vec::new();
    let mut i: usize = 0;
    assert(chars@.take(0) =~= Seq::<char>::empty());
    while i < chars.len()
        invariant
            i <= chars.len(),
            out@ == pascal_to_macro_text(chars@.take(i as int)),
        decreases chars.len() - i,
    {
        proof {
            let next = chars@.take(i + 1);
            assert(next.drop_last() =~= chars@.take(i as int));
        }
        let c: char = chars[i];
        if is_uppercase(c) && i != 0 {
            out.push('_');
        }
        out.push(to_ascii_upper(c));
        i += 1;
    }
    assert(chars@.take(chars.len() as int) =~= chars@);
    string_of(&out)
}

} // verus!
