//! Texts reduced to their characters, and the attributes of fonts as they
//! are written down.

use vstd::prelude::*;
use vstd::string::StringExecFns;
use vstd::utf8::{
    decode_first_scalar, encode_scalar, encode_utf8, encode_utf8_decode_utf8,
    encode_utf8_first_scalar, encode_utf8_valid_utf8, has_width_1_encoding, has_width_2_encoding,
    has_width_3_encoding, has_width_4_encoding, is_char_boundary, is_scalar,
    length_of_first_scalar, pop_first_scalar, take_first_scalar, valid_utf8, char_is_scalar,
};
use vstd::string::StringSliceAdditionalSpecFns;
use crate::bindings::{string_of, string_of_char, utf8_width_of, width_by_first_byte};

verus! {

/// Whether the characters of `out` stand in rising order, none of them twice.
pub open spec fn rising(out: Seq<char>) -> bool {
    forall|i: int, j: int| 0 <= i < j < out.len() ==> (out[i] as int) < (out[j] as int)
}

/// Whether `out` holds the characters of `text`, each once, in rising order.
pub open spec fn is_dedup(text: Seq<char>, out: Seq<char>) -> bool {
    &&& rising(out)
    &&& forall|c: char| out.contains(c) <==> text.contains(c)
}

/// Puts a character into a rising list, unless the list has it.
fn insert(list: &mut Vec<char>, c: char)
    requires
        rising(old(list)@),
    ensures
        rising(final(list)@),
        forall|d: char| final(list)@.contains(d) <==> (old(list)@.contains(d) || d == c),
{
    let mut at: usize = 0;
    while at < list.len() && list[at] < c
        invariant
            at <= list@.len(),
            list@ == old(list)@,
            forall|k: int| 0 <= k < at ==> (list@[k] as int) < (c as int),
        decreases list@.len() - at,
    {
        at = at + 1;
    }
    if at < list.len() && list[at] == c {
        proof {
            assert(list@.contains(c));
        }
        return ;
    }
    list.insert(at, c);
    proof {
        let before = old(list)@;
        let after = list@;
        assert(after[at as int] == c);
        assert forall|i: int, j: int| 0 <= i < j < after.len() implies (after[i] as int) < (
        after[j] as int) by {
            if j < at {
                assert(after[i] == before[i] && after[j] == before[j]);
            } else if j == at {
                assert(after[i] == before[i]);
            } else {
                assert(after[j] == before[j - 1]);
                if i < at {
                    assert(after[i] == before[i]);
                } else if i == at {
                    assert((c as int) < (before[at as int] as int));
                } else {
                    assert(after[i] == before[i - 1]);
                }
            }
        }
        assert forall|d: char| after.contains(d) <==> (before.contains(d) || d == c) by {
            if after.contains(d) {
                let k = choose|k: int| 0 <= k < after.len() && after[k] == d;
                if k < at {
                    assert(before[k] == d);
                } else if k > at {
                    assert(before[k - 1] == d);
                }
            }
            if before.contains(d) {
                let k = choose|k: int| 0 <= k < before.len() && before[k] == d;
                if k < at {
                    assert(after[k] == d);
                } else {
                    assert(after[k + 1] == d);
                }
            }
        }
    }
}

/// The first byte of the encoding of a character tells its width.
proof fn lemma_width_of_scalar(scalar: u32)
    requires
        is_scalar(scalar),
    ensures
        width_by_first_byte(encode_scalar(scalar)[0]) == encode_scalar(scalar).len(),
{
    if has_width_1_encoding(scalar) {
        assert((scalar & 0x7F) as u8 <= 0x7f) by (bit_vector);
    } else if has_width_2_encoding(scalar) {
        assert(0xc2 <= (0xC0 | ((scalar >> 6) & 0x1F) as u8) <= 0xdf) by (bit_vector)
            requires
                0x80 <= scalar <= 0x7FF,
        ;
    } else if has_width_3_encoding(scalar) {
        assert(0xe0 <= (0xE0 | ((scalar >> 12) & 0x0F) as u8) <= 0xef) by (bit_vector);
    } else {
        assert(0xf0 <= (0xF0 | ((scalar >> 18) & 0x7) as u8) <= 0xf4) by (bit_vector)
            requires
                0x10000 <= scalar <= 0x10FFFF,
        ;
    }
}

/// Splits the first character off a text: finds the width of its encoding
/// by its first byte and cuts the text there.
fn split_first(text: &str) -> (r: (&str, &str))
    requires
        text@.len() > 0,
    ensures
        r.0@ == seq![text@[0]],
        r.1@ == text@.drop_first(),
{
    let bytes = text.as_bytes();
    let ghost first = seq![text@[0]];
    let ghost rest = text@.drop_first();
    proof {
        char_is_scalar(text@[0]);
        lemma_width_of_scalar(text@[0] as u32);
        encode_utf8_first_scalar(text@);
        encode_utf8_valid_utf8(text@);
        encode_utf8_valid_utf8(rest);
        assert(pop_first_scalar(bytes@) =~= encode_utf8(rest));
        assert(take_first_scalar(bytes@) =~= encode_scalar(text@[0] as u32));
        assert(encode_utf8(first.drop_first()) =~= Seq::<u8>::empty());
        assert(encode_utf8(first) =~= encode_scalar(text@[0] as u32));
        assert(bytes@[0] == encode_scalar(text@[0] as u32)[0]);
        reveal_with_fuel(is_char_boundary, 2);
        assert(is_char_boundary(bytes@, length_of_first_scalar(bytes@)));
    }
    let width = utf8_width_of(bytes[0]);
    let (head, tail) = text.split_at(width);
    proof {
        encode_utf8_decode_utf8(head@);
        encode_utf8_decode_utf8(tail@);
        encode_utf8_decode_utf8(first);
        encode_utf8_decode_utf8(rest);
        assert(head.spec_bytes() == encode_utf8(first));
        assert(tail.spec_bytes() == encode_utf8(rest));
    }
    (head, tail)
}

/// The characters of a text, each once, in rising order.
pub fn distinct_chars(text: &str) -> (out: Vec<char>)
    ensures
        is_dedup(text@, out@),
{
    let mut out: Vec<char> = Vec::new();
    let mut rest: &str = text;
    let ghost mut seen: Seq<char> = Seq::empty();
    while !rest.is_empty()
        invariant
            text@ == seen + rest@,
            rising(out@),
            forall|d: char| out@.contains(d) <==> seen.contains(d),
        decreases rest@.len(),
    {
        let (head, tail) = split_first(rest);
        let c = head.get_char(0);
        proof {
            let next = seen.push(c);
            assert(next + tail@ =~= seen + rest@);
            assert forall|d: char| next.contains(d) <==> (seen.contains(d) || d == c) by {
                if next.contains(d) {
                    let k = choose|k: int| 0 <= k < next.len() && next[k] == d;
                    if k < seen.len() {
                        assert(seen[k] == d);
                    }
                }
                if seen.contains(d) {
                    let k = choose|k: int| 0 <= k < seen.len() && seen[k] == d;
                    assert(next[k] == d);
                }
                if d == c {
                    assert(next[seen.len() as int] == d);
                }
            }
            seen = next;
        }
        insert(&mut out, c);
        rest = tail;
    }
    proof {
        assert(seen + rest@ =~= seen);
    }
    out
}

/// The first character of each string of a list.
pub open spec fn heads(list: Seq<String>) -> Seq<char> {
    Seq::new(list.len(), |i: int| list[i]@[0])
}

/// Each character of a list as a string of its own.
fn strings_of(chars: &Vec<char>) -> (out: Vec<String>)
    ensures
        out@.len() == chars@.len(),
        forall|i: int| 0 <= i < out@.len() ==> #[trigger] out@[i]@ == seq![chars@[i]],
        heads(out@) == chars@,
{
    let mut out: Vec<String> = Vec::new();
    let mut i: usize = 0;
    while i < chars.len()
        invariant
            i <= chars@.len(),
            out@.len() == i,
            forall|k: int| 0 <= k < i ==> #[trigger] out@[k]@ == seq![chars@[k]],
        decreases chars@.len() - i,
    {
        out.push(string_of_char(chars[i]));
        i = i + 1;
    }
    proof {
        assert forall|k: int| 0 <= k < out@.len() implies heads(out@)[k] == chars@[k] by {
            assert(out@[k]@ == seq![chars@[k]]);
        }
        assert(heads(out@) =~= chars@);
    }
    out
}

/// What a text is reduced to when every character is kept once.
pub trait StringUsefulUtils {
    /// The characters of the text.
    spec fn text(&self) -> Seq<char>;

    /// The characters of the text, each once, in rising order.
    fn dedup(&self) -> (r: String)
        ensures
            is_dedup(self.text(), r@),
    ;

    /// The characters of the text, each once and as a string of its own,
    /// in rising order.
    fn dedup_to_vec(&self) -> (r: Vec<String>)
        ensures
            forall|i: int| 0 <= i < r@.len() ==> (#[trigger] r@[i])@.len() == 1,
            is_dedup(self.text(), heads(r@)),
    ;
}

impl StringUsefulUtils for str {
    open spec fn text(&self) -> Seq<char> {
        self@
    }

    fn dedup(&self) -> (r: String) {
        let chars = distinct_chars(self);
        string_of(&chars)
    }

    fn dedup_to_vec(&self) -> (r: Vec<String>) {
        let chars = distinct_chars(self);
        strings_of(&chars)
    }
}

impl StringUsefulUtils for String {
    open spec fn text(&self) -> Seq<char> {
        self@
    }

    fn dedup(&self) -> (r: String) {
        let chars = distinct_chars(self.as_str());
        string_of(&chars)
    }

    fn dedup_to_vec(&self) -> (r: Vec<String>) {
        let chars = distinct_chars(self.as_str());
        strings_of(&chars)
    }
}

/// The characters of a text, in their order, each as a string of its own.
pub fn split_chars(text: &str) -> (out: Vec<String>)
    ensures
        out@.len() == text@.len(),
        forall|i: int| 0 <= i < out@.len() ==> (#[trigger] out@[i])@ == seq![text@[i]],
{
    let mut out: Vec<String> = Vec::new();
    let mut rest: &str = text;
    while !rest.is_empty()
        invariant
            out@.len() + rest@.len() == text@.len(),
            rest@ == text@.subrange(out@.len() as int, text@.len() as int),
            forall|i: int| 0 <= i < out@.len() ==> (#[trigger] out@[i])@ == seq![text@[i]],
        decreases rest@.len(),
    {
        let (head, tail) = split_first(rest);
        proof {
            assert(tail@ =~= text@.subrange(out@.len() as int + 1, text@.len() as int));
        }
        out.push(head.to_owned());
        rest = tail;
    }
    out
}

/// The family of a font: one by name, or one of the generic families.
#[derive(Clone, Debug, PartialEq, Eq)]
pub enum Family {
    Name(String),
    Serif,
    SansSerif,
    Cursive,
    Fantasy,
    Monospace,
}

/// The slant of a font.
#[derive(Clone, Copy, Debug, PartialEq, Eq, Structural)]
pub enum Style {
    Normal,
    Italic,
    Oblique,
}

/// The width of a font, from the narrowest to the widest.
#[derive(Clone, Copy, Debug, PartialEq, Eq, Structural)]
pub enum Stretch {
    UltraCondensed,
    ExtraCondensed,
    Condensed,
    SemiCondensed,
    Normal,
    SemiExpanded,
    Expanded,
    ExtraExpanded,
    UltraExpanded,
}

/// The name under which a family is written down.
pub open spec fn family_name(family: Family) -> Seq<char> {
    match family {
        Family::Name(name) => name@,
        Family::Serif => "FamilySerif"@,
        Family::SansSerif => "FamilySansSerif"@,
        Family::Cursive => "FamilyCursive"@,
        Family::Fantasy => "FamilyFantasy"@,
        Family::Monospace => "FamilyMonospace"@,
    }
}

/// Whether a name is the name of a generic family.
pub open spec fn is_generic(name: Seq<char>) -> bool {
    ||| name == "FamilySerif"@
    ||| name == "FamilySansSerif"@
    ||| name == "FamilyCursive"@
    ||| name == "FamilyFantasy"@
    ||| name == "FamilyMonospace"@
}

/// The number under which a slant is written down.
pub open spec fn style_number(style: Style) -> u16 {
    match style {
        Style::Normal => 0,
        Style::Italic => 1,
        Style::Oblique => 2,
    }
}

/// The number under which a width is written down, from 1 to 9.
pub open spec fn stretch_number(stretch: Stretch) -> u16 {
    match stretch {
        Stretch::UltraCondensed => 1,
        Stretch::ExtraCondensed => 2,
        Stretch::Condensed => 3,
        Stretch::SemiCondensed => 4,
        Stretch::Normal => 5,
        Stretch::SemiExpanded => 6,
        Stretch::Expanded => 7,
        Stretch::ExtraExpanded => 8,
        Stretch::UltraExpanded => 9,
    }
}

/// What is asked of a font: family, slant, weight and width.
#[derive(Clone, Debug, PartialEq, Eq)]
pub struct InternalAttrsOwned {
    pub family: Family,
    pub style: Style,
    pub weight: u16,
    pub stretch: Stretch,
}

impl InternalAttrsOwned {
    /// The attributes as they are written down: the family's name and the
    /// numbers of slant, weight and width.
    pub open spec fn written(&self) -> (Seq<char>, u16, u16, u16) {
        (
            family_name(self.family),
            style_number(self.style),
            self.weight,
            stretch_number(self.stretch),
        )
    }

    pub fn new(family: Family, style: Style, weight: u16, stretch: Stretch) -> (r: Self)
        ensures
            r.family == family,
            r.style == style,
            r.weight == weight,
            r.stretch == stretch,
    {
        InternalAttrsOwned { family, style, weight, stretch }
    }

    /// Writes the attributes down.
    pub fn to_tuple(&self) -> (r: (String, u16, u16, u16))
        ensures
            (r.0@, r.1, r.2, r.3) == self.written(),
    {
        let name = match &self.family {
            Family::Name(name) => name.clone(),
            Family::Serif => String::from_str("FamilySerif"),
            Family::SansSerif => String::from_str("FamilySansSerif"),
            Family::Cursive => String::from_str("FamilyCursive"),
            Family::Fantasy => String::from_str("FamilyFantasy"),
            Family::Monospace => String::from_str("FamilyMonospace"),
        };
        let style: u16 = match self.style {
            Style::Normal => 0,
            Style::Italic => 1,
            Style::Oblique => 2,
        };
        let stretch: u16 = match self.stretch {
            Stretch::UltraCondensed => 1,
            Stretch::ExtraCondensed => 2,
            Stretch::Condensed => 3,
            Stretch::SemiCondensed => 4,
            Stretch::Normal => 5,
            Stretch::SemiExpanded => 6,
            Stretch::Expanded => 7,
            Stretch::ExtraExpanded => 8,
            Stretch::UltraExpanded => 9,
        };
        (name, style, self.weight, stretch)
    }

    /// Reads attributes that were written down. The name of a generic
    /// family gives that family, any other name the family of that name.
    pub fn from_tuple(src: (String, u16, u16, u16)) -> (r: Self)
        requires
            src.1 <= 2,
            1 <= src.3 <= 9,
        ensures
            r.written() == (src.0@, src.1, src.2, src.3),
            r.family is Name <==> !is_generic(src.0@),
    {
        let family = if src.0 == String::from_str("FamilySerif") {
            Family::Serif
        } else if src.0 == String::from_str("FamilySansSerif") {
            Family::SansSerif
        } else if src.0 == String::from_str("FamilyCursive") {
            Family::Cursive
        } else if src.0 == String::from_str("FamilyFantasy") {
            Family::Fantasy
        } else if src.0 == String::from_str("FamilyMonospace") {
            Family::Monospace
        } else {
            Family::Name(src.0)
        };
        let style = if src.1 == 0 {
            Style::Normal
        } else if src.1 == 1 {
            Style::Italic
        } else {
            Style::Oblique
        };
        let stretch = if src.3 == 1 {
            Stretch::UltraCondensed
        } else if src.3 == 2 {
            Stretch::ExtraCondensed
        } else if src.3 == 3 {
            Stretch::Condensed
        } else if src.3 == 4 {
            Stretch::SemiCondensed
        } else if src.3 == 5 {
            Stretch::Normal
        } else if src.3 == 6 {
            Stretch::SemiExpanded
        } else if src.3 == 7 {
            Stretch::Expanded
        } else if src.3 == 8 {
            Stretch::ExtraExpanded
        } else {
            Stretch::UltraExpanded
        };
        InternalAttrsOwned { family, style, weight: src.2, stretch }
    }
}

/// Writes attributes down.
pub fn attrs_owned_to_tuple(attrs_owned: &InternalAttrsOwned) -> (r: (String, u16, u16, u16))
    ensures
        (r.0@, r.1, r.2, r.3) == attrs_owned.written(),
{
    attrs_owned.to_tuple()
}

/// The five names of the generic families differ from one another.
proof fn lemma_generic_names_differ()
    ensures
        "FamilySerif"@ != "FamilySansSerif"@,
        "FamilySerif"@ != "FamilyCursive"@,
        "FamilySerif"@ != "FamilyFantasy"@,
        "FamilySerif"@ != "FamilyMonospace"@,
        "FamilySansSerif"@ != "FamilyCursive"@,
        "FamilySansSerif"@ != "FamilyFantasy"@,
        "FamilySansSerif"@ != "FamilyMonospace"@,
        "FamilyCursive"@ != "FamilyFantasy"@,
        "FamilyCursive"@ != "FamilyMonospace"@,
        "FamilyFantasy"@ != "FamilyMonospace"@,
{
    reveal_strlit("FamilySerif");
    reveal_strlit("FamilySansSerif");
    reveal_strlit("FamilyCursive");
    reveal_strlit("FamilyFantasy");
    reveal_strlit("FamilyMonospace");
    assert("FamilySerif"@[7] != "FamilySansSerif"@[7]);
    assert("FamilySerif"@[6] != "FamilyCursive"@[6]);
    assert("FamilySerif"@[6] != "FamilyFantasy"@[6]);
    assert("FamilySerif"@[6] != "FamilyMonospace"@[6]);
    assert("FamilySansSerif"@[6] != "FamilyCursive"@[6]);
    assert("FamilySansSerif"@[6] != "FamilyFantasy"@[6]);
    assert("FamilySansSerif"@[6] != "FamilyMonospace"@[6]);
    assert("FamilyCursive"@[6] != "FamilyFantasy"@[6]);
    assert("FamilyCursive"@[6] != "FamilyMonospace"@[6]);
    assert("FamilyFantasy"@[6] != "FamilyMonospace"@[6]);
}

/// Attributes that are written down and read again are the attributes
/// that they were, unless their family bears the name of a generic one.
pub proof fn lemma_written_and_read(attrs: InternalAttrsOwned, read: InternalAttrsOwned)
    requires
        read.written() == attrs.written(),
        read.family is Name <==> !is_generic(attrs.written().0),
        attrs.family matches Family::Name(name) ==> !is_generic(name@),
    ensures
        read.style == attrs.style,
        read.weight == attrs.weight,
        read.stretch == attrs.stretch,
        family_name(read.family) == family_name(attrs.family),
        read.family is Name <==> attrs.family is Name,
        !(attrs.family is Name) ==> read.family == attrs.family,
{
    lemma_generic_names_differ();
}

} // verus!
