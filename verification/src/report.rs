//! The words of a run: the lines that one repository's run logs, and the
//! closing report of a whole sweep.

use vstd::prelude::*;

verus! {

/// The character of a decimal digit.
pub open spec fn digit(value: nat) -> char {
    if value == 0 {
        '0'
    } else if value == 1 {
        '1'
    } else if value == 2 {
        '2'
    } else if value == 3 {
        '3'
    } else if value == 4 {
        '4'
    } else if value == 5 {
        '5'
    } else if value == 6 {
        '6'
    } else if value == 7 {
        '7'
    } else if value == 8 {
        '8'
    } else {
        '9'
    }
}

/// A number written in base ten, without leading zeros.
pub open spec fn decimal(number: nat) -> Seq<char>
    decreases number,
{
    if number < 10 {
        seq![digit(number)]
    } else {
        decimal(number / 10).push(digit(number % 10))
    }
}

/// The texts joined into one, with the separator between each two.
pub open spec fn joined(texts: Seq<Seq<char>>, separator: Seq<char>) -> Seq<char>
    decreases texts.len(),
{
    if texts.len() == 0 {
        Seq::empty()
    } else if texts.len() == 1 {
        texts[0]
    } else {
        joined(texts.drop_last(), separator) + separator + texts.last()
    }
}

/// The line that says that a repository has no tag to delete.
pub open spec fn nothing_eligible_line(repository: Seq<char>) -> Seq<char> {
    "["@ + repository + "] No tags eligable for deletion found."@
}

/// The line that says how many tags of a pattern are to be removed.
pub open spec fn eligible_line(repository: Seq<char>, count: nat, pattern: Seq<char>) -> Seq<char> {
    "["@ + repository + "] Found "@ + decimal(count) + " tags eligable for deletion for pattern /"@
        + pattern + "/"@
}

/// The line that names a tag that is to be deleted.
pub open spec fn to_be_deleted_line(repository: Seq<char>, tag: Seq<char>) -> Seq<char> {
    "["@ + repository + "] tag to be deleted "@ + tag
}

/// The line that names a tag that was deleted.
pub open spec fn deleted_line(repository: Seq<char>, tag: Seq<char>) -> Seq<char> {
    "["@ + repository + "] Deleted "@ + tag
}

/// The line that warns of a tag whose manifest the registry does not have.
pub open spec fn missing_digest_line(repository: Seq<char>, tag: Seq<char>) -> Seq<char> {
    "["@ + repository + "] WARNING: Couldn't find tag digest for "@ + tag
}

fn digit_text(value: usize) -> (text: &'static str)
    requires
        value < 10,
    ensures
        text@ == seq![digit(value as nat)],
{
    proof {
        reveal_strlit("0");
        reveal_strlit("1");
        reveal_strlit("2");
        reveal_strlit("3");
        reveal_strlit("4");
        reveal_strlit("5");
        reveal_strlit("6");
        reveal_strlit("7");
        reveal_strlit("8");
        reveal_strlit("9");
    }
    let text = if value == 0 {
        "0"
    } else if value == 1 {
        "1"
    } else if value == 2 {
        "2"
    } else if value == 3 {
        "3"
    } else if value == 4 {
        "4"
    } else if value == 5 {
        "5"
    } else if value == 6 {
        "6"
    } else if value == 7 {
        "7"
    } else if value == 8 {
        "8"
    } else {
        "9"
    };
    assert(text@ =~= seq![digit(value as nat)]);
    text
}

/// Writes a number in base ten at the end of a text.
pub fn append_decimal(text: &mut String, number: usize)
    ensures
        final(text)@ == old(text)@ + decimal(number as nat),
    decreases number,
{
    if number >= 10 {
        append_decimal(text, number / 10);
    }
    text.append(digit_text(number % 10));
    proof {
        if number >= 10 {
            assert(final(text)@ =~= old(text)@ + decimal(number as nat));
        } else {
            assert(final(text)@ =~= old(text)@ + decimal(number as nat));
        }
    }
}

/// Joins the texts into one, with the separator between each two.
pub fn join_lines(lines: &Vec<String>, separator: &str) -> (text: String)
    ensures
        text@ == joined(crate::text::texts(lines@), separator@),
{
    let mut text = String::new();
    let ghost all = crate::text::texts(lines@);
    let mut i: usize = 0;
    while i < lines.len()
        invariant
            i <= lines@.len(),
            all == crate::text::texts(lines@),
            text@ == joined(all.take(i as int), separator@),
        decreases lines@.len() - i,
    {
        proof {
            assert(all.take(i + 1).drop_last() =~= all.take(i as int));
            assert(all.take(i + 1).last() == lines@[i as int]@);
            if i == 0 {
                assert(text@ + lines@[i as int]@ =~= lines@[i as int]@);
            }
        }
        if i > 0 {
            text.append(separator);
        }
        text.append(lines[i].as_str());
        i = i + 1;
    }
    proof {
        assert(all.take(i as int) =~= all);
    }
    text
}

/// The line that says that a repository has no tag to delete.
pub fn write_nothing_eligible(repository: &str) -> (line: String)
    ensures
        line@ == nothing_eligible_line(repository@),
{
    let mut line = "[".to_owned();
    line.append(repository);
    line.append("] No tags eligable for deletion found.");
    line
}

/// The line that says how many tags of a pattern are to be removed.
pub fn write_eligible(repository: &str, count: usize, pattern: &str) -> (line: String)
    ensures
        line@ == eligible_line(repository@, count as nat, pattern@),
{
    let mut line = "[".to_owned();
    line.append(repository);
    line.append("] Found ");
    append_decimal(&mut line, count);
    line.append(" tags eligable for deletion for pattern /");
    line.append(pattern);
    line.append("/");
    line
}

/// The line that names a tag that is to be deleted.
pub fn write_to_be_deleted(repository: &str, tag: &str) -> (line: String)
    ensures
        line@ == to_be_deleted_line(repository@, tag@),
{
    let mut line = "[".to_owned();
    line.append(repository);
    line.append("] tag to be deleted ");
    line.append(tag);
    line
}

/// The line that names a tag that was deleted.
pub fn write_deleted(repository: &str, tag: &str) -> (line: String)
    ensures
        line@ == deleted_line(repository@, tag@),
{
    let mut line = "[".to_owned();
    line.append(repository);
    line.append("] Deleted ");
    line.append(tag);
    line
}

/// The line that warns of a tag whose manifest the registry does not have.
pub fn write_missing_digest(repository: &str, tag: &str) -> (line: String)
    ensures
        line@ == missing_digest_line(repository@, tag@),
{
    let mut line = "[".to_owned();
    line.append(repository);
    line.append("] WARNING: Couldn't find tag digest for ");
    line.append(tag);
    line
}

} // verus!
