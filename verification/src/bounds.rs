//! The text form of a viewport: `xmin;xmax;ymin;ymax`.
//!
//! The module cuts the text into its four fields and reports what is wrong
//! with a text that has no such form. Reading a number from a field is the
//! caller's: `parse_bounds` takes the reader as a parameter.

use vstd::prelude::*;

verus! {

/// Why a text is no viewport.
#[derive(Clone, Copy, Debug, PartialEq, Eq, Structural)]
pub enum BoundsError {
    /// The text does not have four fields.
    Format,
    /// The first field is no number.
    Xmin,
    /// The second field is no number.
    Xmax,
    /// The third field is no number.
    Ymin,
    /// The fourth field is no number.
    Ymax,
}

impl BoundsError {
    /// A sentence that says what was wrong with the text.
    pub fn message(&self) -> (text: &'static str)
        ensures
            text@ == match *self {
                BoundsError::Format => "Input must be in the format xmin;xmax;ymin;ymax"@,
                BoundsError::Xmin => "Error parsing xmin"@,
                BoundsError::Xmax => "Error parsing xmax"@,
                BoundsError::Ymin => "Error parsing ymin"@,
                BoundsError::Ymax => "Error parsing ymax"@,
            },
    {
        match self {
            BoundsError::Format => "Input must be in the format xmin;xmax;ymin;ymax",
            BoundsError::Xmin => "Error parsing xmin",
            BoundsError::Xmax => "Error parsing xmax",
            BoundsError::Ymin => "Error parsing ymin",
            BoundsError::Ymax => "Error parsing ymax",
        }
    }
}

/// The character between two fields.
pub const SEPARATOR: char = ';';

/// How many separators a text holds. A text of `n` separators has `n + 1`
/// fields.
pub open spec fn separator_count(text: Seq<char>) -> nat
    decreases text.len(),
{
    if text.len() == 0 {
        0
    } else if text.last() == SEPARATOR {
        separator_count(text.drop_last()) + 1
    } else {
        separator_count(text.drop_last())
    }
}

/// Whether a text holds no separator.
pub open spec fn is_field(text: Seq<char>) -> bool {
    forall|k: int| 0 <= k < text.len() ==> text[k] != SEPARATOR
}

/// The four fields of a viewport text, in the order of the text.
pub struct BoundsFields<'a> {
    pub xmin: &'a str,
    pub xmax: &'a str,
    pub ymin: &'a str,
    pub ymax: &'a str,
}

impl<'a> BoundsFields<'a> {
    /// Whether these are the fields of `text`: none holds a separator, and
    /// `text` is the four of them with one separator between each two.
    pub open spec fn splits(&self, text: Seq<char>) -> bool {
        &&& is_field(self.xmin@)
        &&& is_field(self.xmax@)
        &&& is_field(self.ymin@)
        &&& is_field(self.ymax@)
        &&& text == self.xmin@ + seq![SEPARATOR] + self.xmax@ + seq![SEPARATOR] + self.ymin@
            + seq![SEPARATOR] + self.ymax@
    }
}

/// Whether `cuts` holds the positions of the separators among the first
/// `upto` characters of `text`, in rising order.
spec fn cuts_of(cuts: Seq<usize>, text: Seq<char>, upto: int) -> bool {
    &&& cuts.len() == separator_count(text.take(upto))
    &&& forall|k: int| 0 <= k < cuts.len() ==> 0 <= #[trigger] cuts[k] < upto && text[cuts[k] as int] == SEPARATOR
    &&& forall|j: int, k: int| 0 <= j < k < cuts.len() ==> cuts[j] < cuts[k]
    &&& forall|p: int|
        0 <= p < upto && text[p] == SEPARATOR ==> exists|k: int|
            0 <= k < cuts.len() && #[trigger] cuts[k] == p
}

proof fn lemma_cuts_grow(cuts: Seq<usize>, text: Seq<char>, upto: int)
    requires
        0 <= upto < text.len(),
        upto <= usize::MAX,
        cuts_of(cuts, text, upto),
    ensures
        text[upto] == SEPARATOR ==> cuts_of(cuts.push(upto as usize), text, upto + 1),
        text[upto] != SEPARATOR ==> cuts_of(cuts, text, upto + 1),
{
    assert(text.take(upto + 1).drop_last() =~= text.take(upto));
    assert(text.take(upto + 1).last() == text[upto]);
    if text[upto] == SEPARATOR {
        let more = cuts.push(upto as usize);
        assert forall|p: int| 0 <= p < upto + 1 && text[p] == SEPARATOR implies exists|k: int|
            0 <= k < more.len() && #[trigger] more[k] == p by {
            if p < upto {
                let k = choose|k: int| 0 <= k < cuts.len() && #[trigger] cuts[k] == p;
                assert(more[k] == p);
            } else {
                assert(more[cuts.len() as int] == p);
            }
        }
    } else {
        assert forall|p: int| 0 <= p < upto + 1 && text[p] == SEPARATOR implies exists|k: int|
            0 <= k < cuts.len() && #[trigger] cuts[k] == p by {
            let k = choose|k: int| 0 <= k < cuts.len() && #[trigger] cuts[k] == p;
        }
    }
}

/// Between two neighbouring cuts, and before the first and after the last,
/// the text holds no separator.
proof fn lemma_no_cut_between(cuts: Seq<usize>, text: Seq<char>, from: int, to: int, k: int)
    requires
        cuts_of(cuts, text, text.len() as int),
        0 <= k <= cuts.len(),
        from == if k == 0 {
            0
        } else {
            cuts[k - 1] + 1
        },
        to == if k == cuts.len() {
            text.len() as int
        } else {
            cuts[k] as int
        },
    ensures
        0 <= from <= to <= text.len(),
        is_field(text.subrange(from, to)),
{
    if 0 < k < cuts.len() {
        assert(cuts[k - 1] < cuts[k]);
    }
    let field = text.subrange(from, to);
    assert forall|i: int| 0 <= i < field.len() implies field[i] != SEPARATOR by {
        let p = from + i;
        if text[p] == SEPARATOR {
            let j = choose|j: int| 0 <= j < cuts.len() && #[trigger] cuts[j] == p;
            if j < k {
                if j < k - 1 {
                    assert(cuts[j] < cuts[k - 1]);
                }
            } else {
                if k < j {
                    assert(cuts[k] < cuts[j]);
                }
            }
        }
    }
}

/// Cuts a viewport text into its four fields. A text with fewer or more than
/// three separators has no such fields.
pub fn split_bounds<'a>(input: &'a str) -> (result: Result<BoundsFields<'a>, BoundsError>)
    ensures
        separator_count(input@) == 3 <==> result is Ok,
        match result {
            Ok(fields) => fields.splits(input@),
            Err(error) => error == BoundsError::Format,
        },
{
    let len = input.unicode_len();
    let mut cuts: Vec<usize> = Vec::new();
    let mut at: usize = 0;
    proof {
        assert(input@.take(0) =~= Seq::<char>::empty());
    }
    while at < len
        invariant
            len == input@.len(),
            at <= len,
            cuts_of(cuts@, input@, at as int),
        decreases len - at,
    {
        proof {
            lemma_cuts_grow(cuts@, input@, at as int);
        }
        if input.get_char(at) == SEPARATOR {
            cuts.push(at);
        }
        at += 1;
    }
    proof {
        assert(input@.take(len as int) =~= input@);
    }
    if cuts.len() != 3 {
        return Err(BoundsError::Format);
    }
    let first = cuts[0];
    let second = cuts[1];
    let third = cuts[2];
    proof {
        lemma_no_cut_between(cuts@, input@, 0, first as int, 0);
        lemma_no_cut_between(cuts@, input@, first + 1, second as int, 1);
        lemma_no_cut_between(cuts@, input@, second + 1, third as int, 2);
        lemma_no_cut_between(cuts@, input@, third + 1, len as int, 3);
    }
    let fields = BoundsFields {
        xmin: input.substring_char(0, first),
        xmax: input.substring_char(first + 1, second),
        ymin: input.substring_char(second + 1, third),
        ymax: input.substring_char(third + 1, len),
    };
    proof {
        assert(input@ =~= fields.xmin@ + seq![SEPARATOR] + fields.xmax@ + seq![SEPARATOR]
            + fields.ymin@ + seq![SEPARATOR] + fields.ymax@);
    }
    Ok(fields)
}

/// Whether `parse` can read a value from `field`.
pub open spec fn can_read<T, F: Fn(&str) -> Option<T>>(parse: &F, field: &str) -> bool {
    exists|value: T| call_ensures(*parse, (field,), Some(value))
}

/// Whether `result` is what reading the four fields in turn can give: the
/// four values where `parse` reads them all, and else the error of the first
/// field that it does not read.
pub open spec fn reads_as<'a, T, F: Fn(&str) -> Option<T>>(
    parse: &F,
    fields: BoundsFields<'a>,
    result: Result<(T, T, T, T), BoundsError>,
) -> bool {
    match result {
        Ok(bounds) => {
            &&& call_ensures(*parse, (fields.xmin,), Some(bounds.0))
            &&& call_ensures(*parse, (fields.xmax,), Some(bounds.1))
            &&& call_ensures(*parse, (fields.ymin,), Some(bounds.2))
            &&& call_ensures(*parse, (fields.ymax,), Some(bounds.3))
        },
        Err(BoundsError::Format) => false,
        Err(BoundsError::Xmin) => call_ensures(*parse, (fields.xmin,), None::<T>),
        Err(BoundsError::Xmax) => {
            &&& can_read(parse, fields.xmin)
            &&& call_ensures(*parse, (fields.xmax,), None::<T>)
        },
        Err(BoundsError::Ymin) => {
            &&& can_read(parse, fields.xmin)
            &&& can_read(parse, fields.xmax)
            &&& call_ensures(*parse, (fields.ymin,), None::<T>)
        },
        Err(BoundsError::Ymax) => {
            &&& can_read(parse, fields.xmin)
            &&& can_read(parse, fields.xmax)
            &&& can_read(parse, fields.ymin)
            &&& call_ensures(*parse, (fields.ymax,), None::<T>)
        },
    }
}

/// Whether `result` is what `parse_bounds` can make of `text`: the format
/// error where `text` has no four fields, and else what reading its fields
/// gives.
pub open spec fn is_parse_of<T, F: Fn(&str) -> Option<T>>(
    text: Seq<char>,
    parse: &F,
    result: Result<(T, T, T, T), BoundsError>,
) -> bool {
    if separator_count(text) != 3 {
        result == Err::<(T, T, T, T), BoundsError>(BoundsError::Format)
    } else {
        exists|fields: BoundsFields| #[trigger] fields.splits(text) && reads_as(parse, fields, result)
    }
}

/// Reads a viewport from its text `xmin;xmax;ymin;ymax`, with `parse` to read
/// each of the four numbers. The fields are read in the order of the text,
/// and the first that `parse` does not read decides the error.
pub fn parse_bounds<T, F: Fn(&str) -> Option<T>>(input: &str, parse: F) -> (result: Result<
    (T, T, T, T),
    BoundsError,
>)
    requires
        forall|field: &str| call_requires(parse, (field,)),
    ensures
        is_parse_of(input@, &parse, result),
{
    let fields = match split_bounds(input) {
        Ok(fields) => fields,
        Err(error) => {
            return Err(error);
        },
    };
    let xmin = match parse(fields.xmin) {
        Some(value) => value,
        None => {
            return Err(BoundsError::Xmin);
        },
    };
    let xmax = match parse(fields.xmax) {
        Some(value) => value,
        None => {
            return Err(BoundsError::Xmax);
        },
    };
    let ymin = match parse(fields.ymin) {
        Some(value) => value,
        None => {
            return Err(BoundsError::Ymin);
        },
    };
    let ymax = match parse(fields.ymax) {
        Some(value) => value,
        None => {
            return Err(BoundsError::Ymax);
        },
    };
    Ok((xmin, xmax, ymin, ymax))
}

/// The fields of a text: the runs of characters between its separators, an
/// empty run where two separators meet or the text begins or ends with one.
pub open spec fn fields_of(text: Seq<char>) -> Seq<Seq<char>>
    decreases text.len(),
{
    if text.len() == 0 {
        seq![Seq::empty()]
    } else {
        let before = fields_of(text.drop_last());
        if text.last() == SEPARATOR {
            before.push(Seq::empty())
        } else {
            before.update(before.len() - 1, before.last().push(text.last()))
        }
    }
}

/// The viewport that a text stands for when the function `read` reads the
/// numbers.
pub open spec fn bounds_of<T>(text: Seq<char>, read: spec_fn(Seq<char>) -> Option<T>) -> Result<
    (T, T, T, T),
    BoundsError,
> {
    let fields = fields_of(text);
    if separator_count(text) != 3 {
        Err(BoundsError::Format)
    } else if read(fields[0]) is None {
        Err(BoundsError::Xmin)
    } else if read(fields[1]) is None {
        Err(BoundsError::Xmax)
    } else if read(fields[2]) is None {
        Err(BoundsError::Ymin)
    } else if read(fields[3]) is None {
        Err(BoundsError::Ymax)
    } else {
        Ok((read(fields[0])->0, read(fields[1])->0, read(fields[2])->0, read(fields[3])->0))
    }
}

/// Whether `parse` returns nothing but what the function `read` makes of the
/// characters of a field.
pub open spec fn reads_by<T, F: Fn(&str) -> Option<T>>(
    parse: &F,
    read: spec_fn(Seq<char>) -> Option<T>,
) -> bool {
    forall|field: &str, value: Option<T>|
        call_ensures(*parse, (field,), value) ==> value == read(field@)
}

/// A text has one field more than it has separators.
pub proof fn lemma_field_count(text: Seq<char>)
    ensures
        fields_of(text).len() == separator_count(text) + 1,
    decreases text.len(),
{
    if text.len() > 0 {
        lemma_field_count(text.drop_last());
    }
}

/// A field after a separator is the last field of the text.
proof fn lemma_fields_push(text: Seq<char>, field: Seq<char>)
    requires
        is_field(field),
    ensures
        fields_of(text + seq![SEPARATOR] + field) == fields_of(text).push(field),
    decreases field.len(),
{
    let whole = text + seq![SEPARATOR] + field;
    if field.len() == 0 {
        assert(whole.drop_last() =~= text);
        assert(field =~= Seq::<char>::empty());
    } else {
        lemma_fields_push(text, field.drop_last());
        assert(whole.drop_last() =~= text + seq![SEPARATOR] + field.drop_last());
        assert(whole.last() == field.last());
        assert(field.drop_last().push(field.last()) =~= field);
        assert(fields_of(text).push(field.drop_last()).update(
            fields_of(text).len() as int,
            field,
        ) =~= fields_of(text).push(field));
    }
}

/// A text without a separator is its own single field.
proof fn lemma_fields_single(field: Seq<char>)
    requires
        is_field(field),
    ensures
        fields_of(field) == seq![field],
    decreases field.len(),
{
    if field.len() == 0 {
        assert(field =~= Seq::<char>::empty());
    } else {
        lemma_fields_single(field.drop_last());
        assert(field.drop_last().push(field.last()) =~= field);
        assert(seq![field.drop_last()].update(0, field) =~= seq![field]);
    }
}

/// The fields that split a text are the fields of the text: there is one
/// way only to cut a text into four fields.
pub proof fn lemma_split_is_fields_of<'a>(fields: BoundsFields<'a>, text: Seq<char>)
    requires
        fields.splits(text),
    ensures
        fields_of(text) == seq![fields.xmin@, fields.xmax@, fields.ymin@, fields.ymax@],
        separator_count(text) == 3,
{
    let one = fields.xmin@;
    let two = one + seq![SEPARATOR] + fields.xmax@;
    let three = two + seq![SEPARATOR] + fields.ymin@;
    lemma_fields_single(one);
    lemma_fields_push(one, fields.xmax@);
    lemma_fields_push(two, fields.ymin@);
    lemma_fields_push(three, fields.ymax@);
    assert(fields_of(text) =~= seq![fields.xmin@, fields.xmax@, fields.ymin@, fields.ymax@]);
    lemma_field_count(text);
}

/// With a reader that is a function of the characters of a field,
/// `parse_bounds` returns the viewport that the text stands for, and nothing
/// else.
pub proof fn lemma_parse_is_bounds_of<T, F: Fn(&str) -> Option<T>>(
    text: Seq<char>,
    parse: &F,
    read: spec_fn(Seq<char>) -> Option<T>,
    result: Result<(T, T, T, T), BoundsError>,
)
    requires
        reads_by(parse, read),
        is_parse_of(text, parse, result),
    ensures
        result == bounds_of(text, read),
{
    if separator_count(text) == 3 {
        let fields = choose|fields: BoundsFields| #[trigger]
            fields.splits(text) && reads_as(parse, fields, result);
        lemma_split_is_fields_of(fields, text);
        if can_read(parse, fields.xmin) {
            let value = choose|value: T| call_ensures(*parse, (fields.xmin,), Some(value));
            assert(read(fields.xmin@) == Some(value));
        }
        if can_read(parse, fields.xmax) {
            let value = choose|value: T| call_ensures(*parse, (fields.xmax,), Some(value));
            assert(read(fields.xmax@) == Some(value));
        }
        if can_read(parse, fields.ymin) {
            let value = choose|value: T| call_ensures(*parse, (fields.ymin,), Some(value));
            assert(read(fields.ymin@) == Some(value));
        }
    }
}

} // verus!
