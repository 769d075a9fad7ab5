//! The task entity: title, priority, due date and free-form notes, together
//! with the derivation of the record's file name from the title.

use vstd::prelude::*;
use crate::date::Date;

verus! {

/// A task record as held in memory.
#[derive(Debug, PartialEq)]
pub struct Task {
    pub title: String,
    pub priority: u8,
    pub due_date: Date,
    pub info: String,
}

/// The mathematical content of a task: its text fields as character
/// sequences, its numeric fields as plain values.
#[verifier::ext_equal]
pub ghost struct TaskView {
    pub title: Seq<char>,
    pub priority: u8,
    pub due_date: Date,
    pub info: Seq<char>,
}

pub open spec fn no_quote(s: Seq<char>) -> bool {
    forall|i: int| 0 <= i < s.len() ==> s[i] != '"'
}

impl TaskView {
    /// The record format delimits the text fields with quote characters and
    /// does not escape them, so a well-formed task holds none; its date must
    /// be a real calendar date.
    pub open spec fn wf(self) -> bool {
        no_quote(self.title) && no_quote(self.info) && self.due_date.wf()
    }
}

impl View for Task {
    type V = TaskView;

    open spec fn view(&self) -> TaskView {
        TaskView {
            title: self.title@,
            priority: self.priority,
            due_date: self.due_date,
            info: self.info@,
        }
    }
}

impl Task {
    pub open spec fn wf(&self) -> bool {
        self@.wf()
    }
}

/// Spaces replaced by underscores, every other character kept.
pub open spec fn spec_underscored(s: Seq<char>) -> Seq<char> {
    s.map_values(|c: char| if c == ' ' { '_' } else { c })
}

/// The case folding performed by the standard library; the result depends on
/// the characters alone.
pub uninterp spec fn lower_of(s: Seq<char>) -> Seq<char>;

/// Relies on str::to_lowercase: returns the Unicode lowercase form of the
/// input, a function of the input characters alone.
#[verifier::external_body]
fn lowercase(s: &str) -> (r: String)
    ensures
        r@ == lower_of(s@),
{
    s.to_lowercase()
}

/// Replaces each space with an underscore, keeping every other character.
fn replace_spaces(s: &str) -> (r: String)
    ensures
        r@ == spec_underscored(s@),
{
    let n = s.unicode_len();
    let mut out = String::new();
    let mut i: usize = 0;
    while i < n
        invariant
            i <= n,
            n == s@.len(),
            out@ == spec_underscored(s@.subrange(0, i as int)),
        decreases n - i,
    {
        let c = s.get_char(i);
        if c == ' ' {
            proof {
                reveal_strlit("_");
            }
            out.append("_");
        } else {
            let piece = s.substring_char(i, i + 1);
            out.append(piece);
        }
        proof {
            assert(out@ =~= spec_underscored(s@.subrange(0, i + 1)));
        }
        i += 1;
    }
    proof {
        assert(s@.subrange(0, n as int) =~= s@);
    }
    out
}

/// The extension every record file carries.
pub open spec fn cstf_suffix() -> Seq<char> {
    seq!['.', 'c', 's', 't', 'f']
}

impl Task {
    /// The name of the file the task is stored under: the title with spaces
    /// turned to underscores, lowercased, plus the record extension.
    pub fn file_name(&self) -> (r: String)
        ensures
            r@ == lower_of(spec_underscored(self.title@)) + cstf_suffix(),
    {
        let u = replace_spaces(self.title.as_str());
        let mut l = lowercase(u.as_str());
        proof {
            reveal_strlit(".cstf");
            assert(".cstf"@ =~= cstf_suffix());
        }
        l.append(".cstf");
        l
    }
}

} // verus!
