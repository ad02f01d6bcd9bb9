use vstd::prelude::*;

verus! {

/// A character class that a rule may allow or require.
#[derive(Debug, Clone)]
pub enum CharClass {
    Upper,
    Lower,
    Digit,
    Special,
    AsciiPrintable,
    Unicode,
    /// An explicit list of characters.
    Custom(Vec<char>),
}

/// The meaning of a character class: its tag, and for a custom class the set
/// of characters it lists (order and repetition carry no meaning).
pub enum ClassModel {
    Upper,
    Lower,
    Digit,
    Special,
    AsciiPrintable,
    Unicode,
    Custom(Set<char>),
}

impl View for CharClass {
    type V = ClassModel;

    open spec fn view(&self) -> ClassModel {
        match self {
            CharClass::Upper => ClassModel::Upper,
            CharClass::Lower => ClassModel::Lower,
            CharClass::Digit => ClassModel::Digit,
            CharClass::Special => ClassModel::Special,
            CharClass::AsciiPrintable => ClassModel::AsciiPrintable,
            CharClass::Unicode => ClassModel::Unicode,
            CharClass::Custom(chars) => ClassModel::Custom(chars@.to_set()),
        }
    }
}

/// The meaning of a list of classes, element by element.
pub open spec fn classes_view(v: Seq<CharClass>) -> Seq<ClassModel> {
    v.map_values(|c: CharClass| c@)
}

/// Whether every character of `a` occurs in `b`.
fn chars_within(a: &Vec<char>, b: &Vec<char>) -> (r: bool)
    ensures
        r == a@.to_set().subset_of(b@.to_set()),
{
    let mut i: usize = 0;
    while i < a.len()
        invariant
            i <= a.len(),
            forall|k: int| 0 <= k < i ==> b@.contains(#[trigger] a@[k]),
        decreases a.len() - i,
    {
        let mut found = false;
        let mut j: usize = 0;
        while j < b.len()
            invariant
                j <= b.len(),
                i < a.len(),
                found == exists|l: int| 0 <= l < j && b@[l] == a@[i as int],
            decreases b.len() - j,
        {
            if b[j] == a[i] {
                found = true;
            }
            j += 1;
        }
        if !found {
            assert(a@.to_set().contains(a@[i as int]));
            assert(!b@.to_set().contains(a@[i as int]));
            return false;
        }
        i += 1;
    }
    assert forall|x: char| a@.to_set().contains(x) implies b@.to_set().contains(x) by {
        let k = choose|k: int| 0 <= k < a@.len() && a@[k] == x;
        assert(b@.contains(a@[k]));
    }
    true
}

impl CharClass {
    /// Class equality: same tag, and for custom classes the same set of
    /// characters.
    pub fn same_class(&self, other: &CharClass) -> (r: bool)
        ensures
            r == (self@ == other@),
    {
        match (self, other) {
            (CharClass::Upper, CharClass::Upper) => true,
            (CharClass::Lower, CharClass::Lower) => true,
            (CharClass::Digit, CharClass::Digit) => true,
            (CharClass::Special, CharClass::Special) => true,
            (CharClass::AsciiPrintable, CharClass::AsciiPrintable) => true,
            (CharClass::Unicode, CharClass::Unicode) => true,
            (CharClass::Custom(a), CharClass::Custom(b)) => {
                let r = chars_within(a, b) && chars_within(b, a);
                if r {
                    assert(a@.to_set() =~= b@.to_set());
                }
                r
            },
            _ => false,
        }
    }

    /// A copy of this class with the same meaning.
    pub fn duplicate(&self) -> (r: CharClass)
        ensures
            r@ == self@,
    {
        match self {
            CharClass::Upper => CharClass::Upper,
            CharClass::Lower => CharClass::Lower,
            CharClass::Digit => CharClass::Digit,
            CharClass::Special => CharClass::Special,
            CharClass::AsciiPrintable => CharClass::AsciiPrintable,
            CharClass::Unicode => CharClass::Unicode,
            CharClass::Custom(chars) => {
                let mut copy: Vec<char> = Vec::new();
                let mut i: usize = 0;
                while i < chars.len()
                    invariant
                        i <= chars.len(),
                        copy@ == chars@.subrange(0, i as int),
                    decreases chars.len() - i,
                {
                    copy.push(chars[i]);
                    i += 1;
                }
                assert(copy@ =~= chars@);
                CharClass::Custom(copy)
            },
        }
    }
}

} // verus!
