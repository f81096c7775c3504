//! Names: their normal form, their labels, and which of them the registry
//! accepts.
//!
//! A name is normalized before anything else is done with it: white space is
//! cut from both ends and ASCII capitals are made small. The labels of a name
//! are the pieces between its dots. The registry holds second-level names
//! only: two labels, the first of which has between 1 and 63 characters, each
//! an ASCII letter, a digit or a hyphen.

use crate::text::chars_of;
use vstd::prelude::*;

verus! {

/// The most characters that the first label of a name may have.
pub const MAX_LABEL_LENGTH: usize = 63;

/// Whether a character is white space: the code points to which Unicode gives
/// the property `White_Space`.
pub open spec fn is_space(c: char) -> bool {
    let n = c as u32;
    ||| 0x09 <= n <= 0x0D
    ||| n == 0x20
    ||| n == 0x85
    ||| n == 0xA0
    ||| n == 0x1680
    ||| 0x2000 <= n <= 0x200A
    ||| n == 0x2028
    ||| n == 0x2029
    ||| n == 0x202F
    ||| n == 0x205F
    ||| n == 0x3000
}

/// An ASCII capital made small; any other character itself.
pub open spec fn lower_char(c: char) -> char {
    if 'A' <= c <= 'Z' {
        ((c as u8 + 32) as u8) as char
    } else {
        c
    }
}

/// Whether a character may stand in the first label of a name.
pub open spec fn is_label_char(c: char) -> bool {
    ||| 'a' <= c <= 'z'
    ||| 'A' <= c <= 'Z'
    ||| '0' <= c <= '9'
    ||| c == '-'
}

/// A text without the white space at its start.
pub open spec fn trim_start(text: Seq<char>) -> Seq<char>
    decreases text.len(),
{
    if text.len() > 0 && is_space(text.first()) {
        trim_start(text.drop_first())
    } else {
        text
    }
}

/// A text without the white space at its end.
pub open spec fn trim_end(text: Seq<char>) -> Seq<char>
    decreases text.len(),
{
    if text.len() > 0 && is_space(text.last()) {
        trim_end(text.drop_last())
    } else {
        text
    }
}

/// The normal form of a name: no white space at either end, no ASCII capital.
pub open spec fn normalize_name_spec(raw: Seq<char>) -> Seq<char> {
    trim_end(trim_start(raw)).map_values(|c: char| lower_char(c))
}

/// The labels of a name: the pieces between its dots, the leftmost first. A
/// name without a dot is one label; the empty name is one empty label.
pub open spec fn split_labels(name: Seq<char>) -> Seq<Seq<char>>
    decreases name.len(),
{
    if name.len() == 0 {
        seq![Seq::<char>::empty()]
    } else {
        let before = split_labels(name.drop_last());
        if name.last() == '.' {
            before.push(Seq::<char>::empty())
        } else {
            before.update(before.len() - 1, before.last().push(name.last()))
        }
    }
}

/// Why the registry does not accept a name.
#[derive(Debug, Clone, Copy, PartialEq, Eq, Structural)]
pub enum NameDefect {
    /// The name does not have exactly two labels.
    NotSecondLevel,
    /// The first label has more than 63 characters.
    LabelTooLong,
    /// The first label is empty, or a character of it is neither an ASCII
    /// letter, nor a digit, nor a hyphen.
    InvalidCharacter,
}

/// Whether every character of a label may stand in a first label, and there
/// is at least one.
pub open spec fn is_label(label: Seq<char>) -> bool {
    label.len() > 0 && forall|i: int| 0 <= i < label.len() ==> is_label_char(#[trigger] label[i])
}

/// What is wrong with a name in normal form, if anything. The first defect in
/// the order of [`NameDefect`] is the one reported.
pub open spec fn name_defect(name: Seq<char>) -> Option<NameDefect> {
    let labels = split_labels(name);
    if labels.len() != 2 {
        Some(NameDefect::NotSecondLevel)
    } else if labels[0].len() > MAX_LABEL_LENGTH {
        Some(NameDefect::LabelTooLong)
    } else if !is_label(labels[0]) {
        Some(NameDefect::InvalidCharacter)
    } else {
        None
    }
}

/// What validation makes of a raw name: its normal form, or the defect of it.
pub open spec fn validated(raw: Seq<char>) -> Result<Seq<char>, NameDefect> {
    let name = normalize_name_spec(raw);
    match name_defect(name) {
        Some(defect) => Err(defect),
        None => Ok(name),
    }
}

/// Whether a name can be a key of the registry: it is in normal form and has
/// no defect.
pub open spec fn is_registrable(name: Seq<char>) -> bool {
    validated(name) == Ok::<Seq<char>, NameDefect>(name)
}

impl NameDefect {
    /// The sentence that tells a caller what is wrong.
    pub open spec fn reason_spec(&self) -> Seq<char> {
        match self {
            NameDefect::NotSecondLevel => "it must be second level name"@,
            NameDefect::LabelTooLong => "second level name must be less than 64 characters"@,
            NameDefect::InvalidCharacter => "name must be alphanumeric or -"@,
        }
    }

    /// The sentence that tells a caller what is wrong.
    pub fn reason(&self) -> (reason: String)
        ensures
            reason@ == self.reason_spec(),
    {
        match self {
            NameDefect::NotSecondLevel => String::from_str("it must be second level name"),
            NameDefect::LabelTooLong => String::from_str(
                "second level name must be less than 64 characters",
            ),
            NameDefect::InvalidCharacter => String::from_str("name must be alphanumeric or -"),
        }
    }
}

/// Whether a character is white space.
pub fn is_whitespace(c: char) -> (space: bool)
    ensures
        space == is_space(c),
{
    let n = c as u32;
    (0x09 <= n && n <= 0x0D) || n == 0x20 || n == 0x85 || n == 0xA0 || n == 0x1680 || (0x2000
        <= n && n <= 0x200A) || n == 0x2028 || n == 0x2029 || n == 0x202F || n == 0x205F || n
        == 0x3000
}

/// An ASCII capital made small; any other character itself.
pub fn to_lower(c: char) -> (l: char)
    ensures
        l == lower_char(c),
{
    if c >= 'A' && c <= 'Z' {
        ((c as u8) + 32) as char
    } else {
        c
    }
}

/// Cutting white space from the start leaves what follows the first `k`
/// characters, where those are white space and the next one is not.
pub proof fn lemma_trim_start_skips(text: Seq<char>, k: int)
    requires
        0 <= k <= text.len(),
        forall|i: int| 0 <= i < k ==> is_space(#[trigger] text[i]),
        k < text.len() ==> !is_space(text[k]),
    ensures
        trim_start(text) == text.skip(k),
    decreases k,
{
    if k == 0 {
        assert(text.skip(0) =~= text);
    } else {
        let rest = text.drop_first();
        assert(is_space(text[0]));
        assert forall|i: int| 0 <= i < k - 1 implies is_space(#[trigger] rest[i]) by {
            assert(rest[i] == text[i + 1]);
        }
        lemma_trim_start_skips(rest, k - 1);
        assert(rest.skip(k - 1) =~= text.skip(k));
    }
}

/// Cutting white space from the end leaves the first `k` characters, where
/// all after them are white space and the last of them is not.
pub proof fn lemma_trim_end_takes(text: Seq<char>, k: int)
    requires
        0 <= k <= text.len(),
        forall|i: int| k <= i < text.len() ==> is_space(#[trigger] text[i]),
        k > 0 ==> !is_space(text[k - 1]),
    ensures
        trim_end(text) == text.take(k),
    decreases text.len() - k,
{
    if k == text.len() {
        assert(text.take(k) =~= text);
    } else {
        let rest = text.drop_last();
        assert(is_space(text[text.len() - 1]));
        assert forall|i: int| k <= i < rest.len() implies is_space(#[trigger] rest[i]) by {
            assert(rest[i] == text[i]);
        }
        lemma_trim_end_takes(rest, k);
        assert(rest.take(k) =~= text.take(k));
    }
}

/// The normal form of a name.
pub fn normalize_name(name: &str) -> (normal: String)
    ensures
        normal@ == normalize_name_spec(name@),
{
    let chars = chars_of(name);
    let mut start: usize = 0;
    while start < chars.len() && is_whitespace(chars[start])
        invariant
            start <= chars@.len(),
            forall|i: int| 0 <= i < start ==> is_space(#[trigger] chars@[i]),
        decreases chars@.len() - start,
    {
        start = start + 1;
    }
    let mut end: usize = chars.len();
    while end > start && is_whitespace(chars[end - 1])
        invariant
            start <= end <= chars@.len(),
            forall|i: int| end <= i < chars@.len() ==> is_space(#[trigger] chars@[i]),
        decreases end,
    {
        end = end - 1;
    }
    let ghost trimmed = chars@.subrange(start as int, end as int);
    proof {
        lemma_trim_start_skips(chars@, start as int);
        let tail = chars@.skip(start as int);
        assert forall|i: int| end - start <= i < tail.len() implies is_space(
            #[trigger] tail[i],
        ) by {
            assert(tail[i] == chars@[i + start]);
        }
        lemma_trim_end_takes(tail, end - start);
        assert(tail.take(end - start) =~= trimmed);
    }
    let mut normal = String::new();
    let mut i: usize = start;
    while i < end
        invariant
            start <= i <= end <= chars@.len(),
            trimmed == chars@.subrange(start as int, end as int),
            normal@ == trimmed.take(i - start).map_values(|c: char| lower_char(c)),
        decreases end - i,
    {
        normal.push(to_lower(chars[i]));
        proof {
            assert(trimmed.take(i + 1 - start).map_values(|c: char| lower_char(c))
                =~= trimmed.take(i - start).map_values(|c: char| lower_char(c)).push(
                lower_char(chars@[i as int]),
            ));
        }
        i = i + 1;
    }
    proof {
        assert(trimmed.take(end - start) =~= trimmed);
    }
    normal
}

/// A name and its labels.
#[derive(Debug, PartialEq, Eq)]
pub struct NameParseResult {
    name: String,
    labels: Vec<String>,
}

impl View for NameParseResult {
    type V = Seq<char>;

    closed spec fn view(&self) -> Seq<char> {
        self.name@
    }
}

impl NameParseResult {
    #[verifier::type_invariant]
    spec fn labels_are_split(&self) -> bool {
        self.labels.deep_view() == split_labels(self.name@)
    }

    /// Splits a name into its labels.
    pub fn parse(name: &str) -> (parsed: NameParseResult)
        ensures
            parsed@ == name@,
    {
        let chars = chars_of(name);
        let mut labels: Vec<String> = Vec::new();
        let mut current = String::new();
        let mut i: usize = 0;
        while i < chars.len()
            invariant
                i <= chars@.len(),
                labels.deep_view().push(current@) == split_labels(chars@.take(i as int)),
            decreases chars@.len() - i,
        {
            let ghost before = split_labels(chars@.take(i as int));
            let ghost old_labels = labels.deep_view();
            let ghost old_current = current@;
            proof {
                assert(chars@.take(i + 1).drop_last() =~= chars@.take(i as int));
                assert(chars@.take(i + 1).last() == chars@[i as int]);
            }
            if chars[i] == '.' {
                labels.push(current);
                current = String::new();
                proof {
                    assert(labels.deep_view() =~= old_labels.push(old_current));
                    assert(labels.deep_view().push(current@) =~= before.push(
                        Seq::<char>::empty(),
                    ));
                }
            } else {
                current.push(chars[i]);
                proof {
                    assert(labels.deep_view().push(current@) =~= before.update(
                        before.len() - 1,
                        before.last().push(chars@[i as int]),
                    ));
                }
            }
            i = i + 1;
        }
        proof {
            assert(chars@.take(i as int) =~= chars@);
        }
        let ghost old_labels = labels.deep_view();
        labels.push(current);
        proof {
            assert(labels.deep_view() =~= old_labels.push(current@));
        }
        NameParseResult { name: name.to_owned(), labels }
    }

    /// The whole name.
    pub fn get_name(&self) -> (name: &String)
        ensures
            name@ == self@,
    {
        &self.name
    }

    /// How many labels the name has.
    pub fn get_level_count(&self) -> (count: usize)
        ensures
            count == split_labels(self@).len(),
    {
        proof {
            use_type_invariant(self);
        }
        self.labels.len()
    }

    /// The first label of the name.
    pub fn get_current_level(&self) -> (label: Option<&String>)
        ensures
            label matches Some(l) && l@ == split_labels(self@)[0],
    {
        proof {
            use_type_invariant(self);
            lemma_split_labels_nonempty(self.name@);
        }
        Some(&self.labels[0])
    }

    /// The last label of the name.
    pub fn get_top_level(&self) -> (label: Option<&String>)
        ensures
            label matches Some(l) && l@ == split_labels(self@).last(),
    {
        proof {
            use_type_invariant(self);
            lemma_split_labels_nonempty(self.name@);
        }
        Some(&self.labels[self.labels.len() - 1])
    }
}

/// A name has at least one label.
pub proof fn lemma_split_labels_nonempty(name: Seq<char>)
    ensures
        split_labels(name).len() >= 1,
    decreases name.len(),
{
    if name.len() > 0 {
        lemma_split_labels_nonempty(name.drop_last());
    }
}

/// What is left when white space is cut from the start is empty or starts
/// with another character, and it is the end of the text.
pub proof fn lemma_trim_start_result(text: Seq<char>)
    ensures
        trim_start(text).len() > 0 ==> !is_space(trim_start(text).first()),
        trim_start(text).len() <= text.len(),
        trim_start(text) == text.skip(text.len() - trim_start(text).len()),
    decreases text.len(),
{
    if text.len() > 0 && is_space(text.first()) {
        let rest = text.drop_first();
        lemma_trim_start_result(rest);
        assert(rest.skip(rest.len() - trim_start(rest).len()) =~= text.skip(
            text.len() - trim_start(rest).len(),
        ));
    } else {
        assert(text.skip(0) =~= text);
    }
}

/// What is left when white space is cut from the end is empty or ends with
/// another character, and it is the start of the text.
pub proof fn lemma_trim_end_result(text: Seq<char>)
    ensures
        trim_end(text).len() > 0 ==> !is_space(trim_end(text).last()),
        trim_end(text).len() <= text.len(),
        trim_end(text) == text.take(trim_end(text).len() as int),
    decreases text.len(),
{
    if text.len() > 0 && is_space(text.last()) {
        let rest = text.drop_last();
        lemma_trim_end_result(rest);
        assert(rest.take(trim_end(rest).len() as int) =~= text.take(trim_end(rest).len() as int));
    } else {
        assert(text.take(text.len() as int) =~= text);
    }
}

/// A name in normal form is its own normal form.
pub proof fn lemma_normalize_idempotent(raw: Seq<char>)
    ensures
        normalize_name_spec(normalize_name_spec(raw)) == normalize_name_spec(raw),
{
    let started = trim_start(raw);
    let trimmed = trim_end(started);
    let normal = normalize_name_spec(raw);
    lemma_trim_start_result(raw);
    lemma_trim_end_result(started);
    assert(normal.len() == trimmed.len());
    if normal.len() > 0 {
        assert(trimmed.first() == started.first());
        assert(normal.first() == lower_char(trimmed.first()));
        assert(normal.last() == lower_char(trimmed.last()));
        assert(!is_space(normal.first()));
        assert(!is_space(normal.last()));
    }
    assert(trim_start(normal) == normal);
    assert(trim_end(normal) == normal);
    assert(normal.map_values(|c: char| lower_char(c)) =~= normal);
}

/// Validating the normal form of a name gives what validating the name gave:
/// the same normal form, or the same defect.
pub proof fn lemma_validate_idempotent(raw: Seq<char>)
    ensures
        validated(normalize_name_spec(raw)) == validated(raw),
        validated(raw) matches Ok(name) ==> validated(name) == validated(raw) && is_registrable(
            name,
        ),
{
    lemma_normalize_idempotent(raw);
}

/// Whether a character may stand in the first label of a name.
pub fn is_label_character(c: char) -> (label: bool)
    ensures
        label == is_label_char(c),
{
    (c >= 'a' && c <= 'z') || (c >= 'A' && c <= 'Z') || (c >= '0' && c <= '9') || c == '-'
}

/// A second-level name that the registry accepts, in normal form.
#[derive(Debug, PartialEq, Eq)]
pub struct FirstLevelName(pub(crate) NameParseResult);

impl View for FirstLevelName {
    type V = Seq<char>;

    closed spec fn view(&self) -> Seq<char> {
        self.0@
    }
}

impl FirstLevelName {
    #[verifier::type_invariant]
    spec fn registrable(&self) -> bool {
        is_registrable(self.0@)
    }

    /// Validates a raw name: normalizes it, splits it, and checks that it has
    /// two labels and that the first one is well formed.
    #[verifier::loop_isolation(false)]
    pub fn parse(raw: &str) -> (name: Result<FirstLevelName, NameDefect>)
        ensures
            match validated(raw@) {
                Ok(normal) => name matches Ok(n) && n@ == normal,
                Err(defect) => name == Err::<FirstLevelName, NameDefect>(defect),
            },
    {
        let normal = normalize_name(raw);
        let result = NameParseResult::parse(normal.as_str());
        proof {
            lemma_normalize_idempotent(raw@);
        }
        if result.get_level_count() != 2 {
            return Err(NameDefect::NotSecondLevel);
        }
        let first = chars_of(result.get_current_level().unwrap().as_str());
        if first.len() > MAX_LABEL_LENGTH {
            return Err(NameDefect::LabelTooLong);
        }
        if first.len() == 0 {
            return Err(NameDefect::InvalidCharacter);
        }
        let mut i: usize = 0;
        while i < first.len()
            invariant
                i <= first@.len(),
                forall|k: int| 0 <= k < i ==> is_label_char(#[trigger] first@[k]),
            decreases first@.len() - i,
        {
            if !is_label_character(first[i]) {
                return Err(NameDefect::InvalidCharacter);
            }
            i = i + 1;
        }
        Ok(FirstLevelName(result))
    }

    /// The name.
    pub fn get_name(&self) -> (name: &String)
        ensures
            name@ == self@,
            is_registrable(self@),
    {
        proof {
            use_type_invariant(self);
        }
        self.0.get_name()
    }

    /// The name.
    pub fn to_string(&self) -> (name: String)
        ensures
            name@ == self@,
    {
        self.0.get_name().clone()
    }
}

/// A text without a dot is one label.
pub proof fn lemma_split_one_label(text: Seq<char>)
    requires
        forall|i: int| 0 <= i < text.len() ==> #[trigger] text[i] != '.',
    ensures
        split_labels(text) == seq![text],
    decreases text.len(),
{
    if text.len() == 0 {
        assert(split_labels(text) =~~= seq![text]);
    } else {
        lemma_split_one_label(text.drop_last());
        assert(text.drop_last().push(text.last()) =~= text);
        assert(split_labels(text) =~~= seq![text]);
    }
}

/// Two texts without a dot, joined by a dot, are two labels.
pub proof fn lemma_split_two_labels(label: Seq<char>, top: Seq<char>)
    requires
        forall|i: int| 0 <= i < label.len() ==> #[trigger] label[i] != '.',
        forall|i: int| 0 <= i < top.len() ==> #[trigger] top[i] != '.',
    ensures
        split_labels(label + seq!['.'] + top) == seq![label, top],
    decreases top.len(),
{
    let name = label + seq!['.'] + top;
    if top.len() == 0 {
        lemma_split_one_label(label);
        assert(name.drop_last() =~= label);
        assert(split_labels(name) =~~= seq![label, top]);
    } else {
        let shorter = top.drop_last();
        lemma_split_two_labels(label, shorter);
        assert(name.drop_last() =~= label + seq!['.'] + shorter);
        assert(name.last() == top.last());
        assert(shorter.push(top.last()) =~= top);
        assert(split_labels(name) =~~= seq![label, top]);
    }
}

/// A first label of at most 63 small letters, digits and hyphens, a dot, and
/// a top label without dot, capital or white space make a name that the
/// registry accepts as it is.
pub proof fn lemma_second_level_name(label: Seq<char>, top: Seq<char>)
    requires
        is_label(label),
        label.len() <= MAX_LABEL_LENGTH,
        forall|i: int| 0 <= i < label.len() ==> lower_char(#[trigger] label[i]) == label[i],
        forall|i: int|
            0 <= i < top.len() ==> #[trigger] top[i] != '.' && lower_char(top[i]) == top[i]
                && !is_space(top[i]),
    ensures
        is_registrable(label + seq!['.'] + top),
{
    let name = label + seq!['.'] + top;
    assert(!is_space(name.first())) by {
        assert(name.first() == label[0]);
        assert(is_label_char(label[0]));
    }
    assert(!is_space(name.last())) by {
        if top.len() > 0 {
            assert(name.last() == top[top.len() - 1]);
        } else {
            assert(name.last() == '.');
        }
    }
    assert(trim_start(name) == name);
    assert(trim_end(name) == name);
    assert forall|i: int| 0 <= i < name.len() implies lower_char(#[trigger] name[i])
        == name[i] by {
        if i < label.len() {
            assert(name[i] == label[i]);
        } else if i > label.len() {
            assert(name[i] == top[i - label.len() - 1]);
        }
    }
    assert(name.map_values(|c: char| lower_char(c)) =~= name);
    assert forall|i: int| 0 <= i < label.len() implies #[trigger] label[i] != '.' by {
        assert(is_label_char(label[i]));
    }
    lemma_split_two_labels(label, top);
}

} // verus!
