//! The context store: a long-term note plus day-bucketed notes, exposed to
//! the loop as one text block. File reads and writes live with the driver;
//! every path, heading and composition rule is decided and verified here.

use vstd::prelude::*;
use crate::strutil::chars_to_string;

verus! {

pub open spec fn digit_char(d: int) -> char {
    if d == 0 {
        '0'
    } else if d == 1 {
        '1'
    } else if d == 2 {
        '2'
    } else if d == 3 {
        '3'
    } else if d == 4 {
        '4'
    } else if d == 5 {
        '5'
    } else if d == 6 {
        '6'
    } else if d == 7 {
        '7'
    } else if d == 8 {
        '8'
    } else {
        '9'
    }
}

/// A number written with four digits, zero-padded.
pub open spec fn pad4(n: int) -> Seq<char> {
    seq![
        digit_char(n / 1000 % 10),
        digit_char(n / 100 % 10),
        digit_char(n / 10 % 10),
        digit_char(n % 10),
    ]
}

/// A number written with two digits, zero-padded.
pub open spec fn pad2(n: int) -> Seq<char> {
    seq![digit_char(n / 10 % 10), digit_char(n % 10)]
}

/// A calendar day written compactly, as in file names.
pub open spec fn date_compact(year: int, month: int, day: int) -> Seq<char> {
    pad4(year) + pad2(month) + pad2(day)
}

/// A calendar month written compactly, as in directory names.
pub open spec fn month_compact(year: int, month: int) -> Seq<char> {
    pad4(year) + pad2(month)
}

/// A calendar day written with dashes, as in headings.
pub open spec fn date_dashed(year: int, month: int, day: int) -> Seq<char> {
    pad4(year) + seq!['-'] + pad2(month) + seq!['-'] + pad2(day)
}

fn digit_char_exec(d: u32) -> (c: char)
    requires
        d < 10,
    ensures
        c == digit_char(d as int),
{
    if d == 0 {
        '0'
    } else if d == 1 {
        '1'
    } else if d == 2 {
        '2'
    } else if d == 3 {
        '3'
    } else if d == 4 {
        '4'
    } else if d == 5 {
        '5'
    } else if d == 6 {
        '6'
    } else if d == 7 {
        '7'
    } else if d == 8 {
        '8'
    } else {
        '9'
    }
}

fn push_pad4(out: &mut Vec<char>, n: u32)
    requires
        n <= 9999,
    ensures
        final(out)@ == old(out)@ + pad4(n as int),
{
    out.push(digit_char_exec(n / 1000 % 10));
    out.push(digit_char_exec(n / 100 % 10));
    out.push(digit_char_exec(n / 10 % 10));
    out.push(digit_char_exec(n % 10));
    proof {
        assert(out@ =~= old(out)@ + pad4(n as int));
    }
}

fn push_pad2(out: &mut Vec<char>, n: u32)
    requires
        n <= 99,
    ensures
        final(out)@ == old(out)@ + pad2(n as int),
{
    out.push(digit_char_exec(n / 10 % 10));
    out.push(digit_char_exec(n % 10));
    proof {
        assert(out@ =~= old(out)@ + pad2(n as int));
    }
}

/// The section separator of the context block.
pub open spec fn block_sep() -> Seq<char> {
    "\n\n---\n\n"@
}

/// Daily notes joined oldest-first, separated by `block_sep`.
pub open spec fn notes_joined(notes: Seq<Seq<char>>) -> Seq<char>
    decreases notes.len(),
{
    if notes.len() == 0 {
        Seq::<char>::empty()
    } else if notes.len() == 1 {
        notes[0]
    } else {
        notes[0] + block_sep() + notes_joined(notes.drop_first())
    }
}

/// The context block handed to the system instructions: the long-term note
/// and the recent daily notes, each section present only when it has
/// content, and the whole block empty when nothing exists.
pub open spec fn memory_context_text(long_term: Seq<char>, notes: Seq<Seq<char>>) -> Seq<char> {
    if long_term.len() == 0 && notes.len() == 0 {
        Seq::<char>::empty()
    } else if notes.len() == 0 {
        "# Memory\n\n"@ + "## Long-term Memory\n\n"@ + long_term
    } else if long_term.len() == 0 {
        "# Memory\n\n"@ + "## Recent Daily Notes\n\n"@ + notes_joined(notes)
    } else {
        "# Memory\n\n"@ + "## Long-term Memory\n\n"@ + long_term + block_sep()
            + "## Recent Daily Notes\n\n"@ + notes_joined(notes)
    }
}

proof fn lemma_notes_joined_snoc(notes: Seq<Seq<char>>, x: Seq<char>)
    requires
        notes.len() >= 1,
    ensures
        notes_joined(notes.push(x)) == notes_joined(notes) + block_sep() + x,
    decreases notes.len(),
{
    if notes.len() == 1 {
        assert(notes.push(x)[0] == notes[0]);
        assert(notes.push(x).drop_first() =~= seq![x]);
        assert(notes_joined(seq![x]) == x);
        assert(notes_joined(notes.push(x)) == notes[0] + block_sep() + x);
        assert(notes_joined(notes) == notes[0]);
    } else {
        assert(notes.push(x)[0] == notes[0]);
        assert(notes.push(x).drop_first() =~= notes.drop_first().push(x));
        lemma_notes_joined_snoc(notes.drop_first(), x);
        assert(notes[0] + block_sep() + (notes_joined(notes.drop_first()) + block_sep() + x) =~= (
        notes[0] + block_sep() + notes_joined(notes.drop_first())) + block_sep() + x);
    }
}

/// The stored notes of one agent: everything lives under
/// `<workspace>/memory`.
#[derive(Debug)]
pub struct MemoryStore {
    pub workspace: String,
}

impl MemoryStore {
    /// Remembers the workspace root; the driver creates the directory.
    pub fn new(workspace: &str) -> (m: MemoryStore)
        ensures
            m.workspace@ == workspace@,
    {
        MemoryStore { workspace: String::from_str(workspace) }
    }

    /// The workspace root this store lives under.
    pub fn workspace(&self) -> (r: String)
        ensures
            r@ == self.workspace@,
    {
        self.workspace.clone()
    }

    /// The directory of all notes.
    pub fn memory_dir(&self) -> (r: String)
        ensures
            r@ == self.workspace@ + "/memory"@,
    {
        let mut s = self.workspace.clone();
        s.append("/memory");
        s
    }

    /// The long-term note's file.
    pub fn memory_file(&self) -> (r: String)
        ensures
            r@ == self.workspace@ + "/memory/MEMORY.md"@,
    {
        let mut s = self.workspace.clone();
        s.append("/memory/MEMORY.md");
        s
    }

    /// The file of the notes of one calendar day, bucketed by month.
    pub fn today_file(&self, year: u32, month: u32, day: u32) -> (r: String)
        requires
            year <= 9999,
            1 <= month <= 12,
            1 <= day <= 31,
        ensures
            r@ == self.workspace@ + "/memory/"@ + month_compact(year as int, month as int) + "/"@
                + date_compact(year as int, month as int, day as int) + ".md"@,
    {
        let mut out: Vec<char> = Vec::new();
        push_pad4(&mut out, year);
        push_pad2(&mut out, month);
        let month_dir = chars_to_string(&out);
        let mut out2: Vec<char> = Vec::new();
        push_pad4(&mut out2, year);
        push_pad2(&mut out2, month);
        push_pad2(&mut out2, day);
        let day_name = chars_to_string(&out2);
        let mut s = self.workspace.clone();
        s.append("/memory/");
        s.append(month_dir.as_str());
        s.append("/");
        s.append(day_name.as_str());
        s.append(".md");
        proof {
            assert(s@ =~= self.workspace@ + "/memory/"@ + month_compact(year as int, month as int)
                + "/"@ + date_compact(year as int, month as int, day as int) + ".md"@);
        }
        s
    }
}

/// A calendar day written with dashes, for the daily heading.
pub fn format_date_dashed(year: u32, month: u32, day: u32) -> (r: String)
    requires
        year <= 9999,
        1 <= month <= 12,
        1 <= day <= 31,
    ensures
        r@ == date_dashed(year as int, month as int, day as int),
{
    let mut out: Vec<char> = Vec::new();
    push_pad4(&mut out, year);
    out.push('-');
    push_pad2(&mut out, month);
    out.push('-');
    push_pad2(&mut out, day);
    proof {
        assert(out@ =~= date_dashed(year as int, month as int, day as int));
    }
    chars_to_string(&out)
}

/// What today's note file holds after an append: the first write of a day
/// begins the file with a date heading; later entries follow the existing
/// text after a newline.
pub fn append_today_content(existing: &str, year: u32, month: u32, day: u32, content: &str) -> (r:
    String)
    requires
        year <= 9999,
        1 <= month <= 12,
        1 <= day <= 31,
    ensures
        existing@.len() == 0 ==> r@ == "# "@ + date_dashed(year as int, month as int, day as int)
            + "\n\n"@ + content@,
        existing@.len() > 0 ==> r@ == existing@ + "\n"@ + content@,
{
    if existing.is_empty() {
        let date = format_date_dashed(year, month, day);
        let mut s = String::from_str("# ");
        s.append(date.as_str());
        s.append("\n\n");
        s.append(content);
        proof {
            assert(s@ =~= "# "@ + date_dashed(year as int, month as int, day as int) + "\n\n"@
                + content@);
        }
        s
    } else {
        let mut s = String::from_str(existing);
        s.append("\n");
        s.append(content);
        s
    }
}

/// Composes the context block from the long-term note and the recent daily
/// notes (oldest first, absent days already skipped), as
/// `memory_context_text` describes.
pub fn get_memory_context(long_term: &str, recent_notes: &Vec<String>) -> (r: String)
    ensures
        r@ == memory_context_text(long_term@, recent_notes@.map_values(|s: String| s@)),
{
    let ghost notes = recent_notes@.map_values(|s: String| s@);
    let mut joined = String::new();
    let mut i: usize = 0;
    while i < recent_notes.len()
        invariant
            i <= recent_notes@.len(),
            notes == recent_notes@.map_values(|s: String| s@),
            notes.len() == recent_notes@.len(),
            joined@ == notes_joined(notes.subrange(0, i as int)),
        decreases recent_notes@.len() - i,
    {
        let ghost done = notes.subrange(0, i as int);
        proof {
            assert(notes[i as int] == recent_notes@[i as int]@);
        }
        if i > 0 {
            joined.append("\n\n---\n\n");
        }
        joined.append(recent_notes[i].as_str());
        proof {
            assert(done.push(notes[i as int]) =~= notes.subrange(0, i + 1));
            if i == 0 {
                assert(notes_joined(notes.subrange(0, 1)) == notes.subrange(0, 1)[0]);
                assert(joined@ =~= notes_joined(notes.subrange(0, 1)));
            } else {
                lemma_notes_joined_snoc(done, notes[i as int]);
                assert(joined@ =~= notes_joined(notes.subrange(0, i + 1)));
            }
        }
        i = i + 1;
    }
    proof {
        assert(notes.subrange(0, notes.len() as int) =~= notes);
    }
    let no_long = long_term.is_empty();
    let no_notes = recent_notes.len() == 0;
    if no_long && no_notes {
        String::new()
    } else if no_notes {
        let mut s = String::from_str("# Memory\n\n");
        s.append("## Long-term Memory\n\n");
        s.append(long_term);
        proof {
            assert(s@ =~= memory_context_text(long_term@, notes));
        }
        s
    } else if no_long {
        let mut s = String::from_str("# Memory\n\n");
        s.append("## Recent Daily Notes\n\n");
        s.append(joined.as_str());
        proof {
            assert(s@ =~= memory_context_text(long_term@, notes));
        }
        s
    } else {
        let mut s = String::from_str("# Memory\n\n");
        s.append("## Long-term Memory\n\n");
        s.append(long_term);
        s.append("\n\n---\n\n");
        s.append("## Recent Daily Notes\n\n");
        s.append(joined.as_str());
        proof {
            assert(s@ =~= memory_context_text(long_term@, notes));
        }
        s
    }
}

/// Relies on `time::OffsetDateTime::now_utc`, `time::Duration::days` and
/// the date accessors `year`, `month`, `day`: the UTC calendar date `days`
/// days before now. The result depends on the clock, so only the calendar
/// ranges are promised.
#[verifier::external_body]
pub fn utc_date_days_ago(days: u32) -> (r: (i32, u8, u8))
    requires
        days <= 100000,
    ensures
        -9999 <= r.0 <= 9999,
        1 <= r.1 <= 12,
        1 <= r.2 <= 31,
{
    let d = time::OffsetDateTime::now_utc() - time::Duration::days(days as i64);
    (d.year(), u8::from(d.month()), d.day())
}

} // verus!
