use vstd::prelude::*;

use crate::text::{
    ascii_lower, chars_eq_ignore_ascii_case, chars_of, is_blank, lowercase, push_all, str_eq,
    string_of, to_lowercase, trim, trim_chars, trim_end, trim_end_chars,
};

verus! {

/// A task's content with `addition` appended on a line of its own: a
/// newline goes between them unless the content is empty or already ends
/// with one.
pub open spec fn appended_task_content(content: Seq<char>, addition: Seq<char>) -> Seq<char> {
    if content.len() > 0 && content.last() != '\n' {
        content.push('\n') + addition
    } else {
        content + addition
    }
}

/// `s` without leading and trailing whitespace (`str::trim`), e.g. a task
/// description or a note title given on the command line.
pub fn trim_text(s: &str) -> (r: String)
    ensures
        r@ == trim(s@),
{
    string_of(&trim_chars(&chars_of(s)))
}

/// Appends `addition` to a task's content (`moco edit --append`).
pub fn append_task_content(content: &str, addition: &str) -> (r: String)
    ensures
        r@ == appended_task_content(content@, addition@),
{
    let mut v = chars_of(content);
    if v.len() > 0 && v[v.len() - 1] != '\n' {
        v.push('\n');
    }
    push_all(&mut v, &chars_of(addition));
    string_of(&v)
}

/// A note's content with `addition` appended: the addition alone when the
/// note is empty, else after a newline.
pub open spec fn appended_note_content(content: Seq<char>, addition: Seq<char>) -> Seq<char> {
    if content.len() == 0 {
        addition
    } else {
        content.push('\n') + addition
    }
}

/// Appends `addition` to a note's content (`moco note edit --append`).
pub fn append_note_content(content: &str, addition: &str) -> (r: String)
    ensures
        r@ == appended_note_content(content@, addition@),
{
    let mut v = chars_of(content);
    if v.len() > 0 {
        v.push('\n');
    }
    push_all(&mut v, &chars_of(addition));
    string_of(&v)
}

/// The content a submitted add form gives: the trimmed title, followed by
/// the body without trailing whitespace on the next line when the body is
/// not blank; nothing while the title is blank.
pub open spec fn added_task_content(title: Seq<char>, body: Seq<char>) -> Option<Seq<char>> {
    if trim(title).len() == 0 {
        None
    } else if trim(body).len() == 0 {
        Some(trim(title))
    } else {
        Some(trim(title).push('\n') + trim_end(body))
    }
}

/// The task content of a submitted add form; `None` keeps the form open
/// because the title is blank.
pub fn compose_task_content(title: &str, body: &str) -> (r: Option<String>)
    ensures
        match r {
            Some(c) => added_task_content(title@, body@) == Some(c@),
            None => added_task_content(title@, body@) is None,
        },
{
    let t = trim_chars(&chars_of(title));
    if t.len() == 0 {
        return None;
    }
    let b = chars_of(body);
    if is_blank(&b) {
        return Some(string_of(&t));
    }
    let mut v = t;
    v.push('\n');
    push_all(&mut v, &trim_end_chars(&b));
    Some(string_of(&v))
}

/// The title and content a submitted note form gives: the trimmed title and
/// the body without trailing whitespace; nothing while the title is blank.
pub fn compose_note(title: &str, body: &str) -> (r: Option<(String, String)>)
    ensures
        match r {
            Some((t, c)) => trim(title@).len() > 0 && t@ == trim(title@) && c@ == trim_end(body@),
            None => trim(title@).len() == 0,
        },
{
    let t = trim_chars(&chars_of(title));
    if t.len() == 0 {
        return None;
    }
    Some((string_of(&t), string_of(&trim_end_chars(&chars_of(body)))))
}

/// Index of the first `'\n'` in `s`, or `s.len()`.
pub open spec fn first_newline(s: Seq<char>) -> int {
    crate::text::index_of(s, '\n')
}

/// The title an edit form opens with: the text before the first newline,
/// trimmed.
pub open spec fn edit_title(content: Seq<char>) -> Seq<char> {
    trim(content.take(first_newline(content)))
}

/// The body an edit form opens with: the text after the first newline, or
/// nothing when there is none.
pub open spec fn edit_body(content: Seq<char>) -> Seq<char> {
    if first_newline(content) < content.len() {
        content.skip(first_newline(content) + 1)
    } else {
        seq![]
    }
}

/// Splits a task's content into the title and body an edit form opens with
/// (`splitn(2, '\n')`, title trimmed).
pub fn split_title_body(content: &str) -> (r: (String, String))
    ensures
        r.0@ == edit_title(content@),
        r.1@ == edit_body(content@),
{
    let c = chars_of(content);
    let k = crate::text::find_char(&c, '\n');
    let title = trim_chars(&crate::text::slice_chars(&c, 0, k));
    let body = if k < c.len() {
        crate::text::slice_chars(&c, k + 1, c.len())
    } else {
        Vec::new()
    };
    proof {
        assert(c@.subrange(0, k as int) =~= c@.take(k as int));
        if k < c.len() {
            assert(c@.subrange(k + 1, c.len() as int) =~= c@.skip(k + 1));
        }
    }
    (string_of(&title), string_of(&body))
}

/// The content a submitted edit form gives: the title alone when the body
/// is blank, else the title and the body on the next line.
pub open spec fn edited_content(title: Seq<char>, body: Seq<char>) -> Seq<char> {
    if trim(body).len() == 0 {
        title
    } else {
        title.push('\n') + body
    }
}

/// Recombines the title and body of a submitted edit form into content.
pub fn compose_edited_content(title: &str, body: &str) -> (r: String)
    ensures
        r@ == edited_content(title@, body@),
{
    let b = chars_of(body);
    if is_blank(&b) {
        return string_of(&chars_of(title));
    }
    let mut v = chars_of(title);
    v.push('\n');
    push_all(&mut v, &b);
    string_of(&v)
}

/// Whether an answer to "Delete task …? [y/N]" confirms: trimmed and
/// lowercased, it is `y` or `yes`.
pub open spec fn confirms_yes(answer: Seq<char>) -> bool {
    lowercase(trim(answer)) == "y"@ || lowercase(trim(answer)) == "yes"@
}

/// Reads an answer to a `[y/N]` prompt that accepts `y` or `yes` in any case.
pub fn confirms_removal(answer: &str) -> (b: bool)
    ensures
        b == confirms_yes(answer@),
{
    let t = string_of(&trim_chars(&chars_of(answer)));
    let lower = to_lowercase(t.as_str());
    str_eq(lower.as_str(), "y") || str_eq(lower.as_str(), "yes")
}

/// Whether an answer to a `[y/N]` prompt that takes only `y` confirms:
/// trimmed, it is `y` or `Y`.
pub open spec fn confirms_y(answer: Seq<char>) -> bool {
    trim(answer).len() == 1 && ascii_lower(trim(answer)[0]) == 'y'
}

/// Reads an answer to a `[y/N]` prompt that accepts `y` alone (any case).
pub fn confirms(answer: &str) -> (b: bool)
    ensures
        b == confirms_y(answer@),
{
    let t = trim_chars(&chars_of(answer));
    proof {
        reveal_strlit("y");
        assert("y"@[0] == 'y');
    }
    chars_eq_ignore_ascii_case(&t, "y")
}

/// Opening a task's content in the edit form and submitting it unchanged
/// gives the content back, when its first line has no surrounding
/// whitespace and its body is not blank.
pub proof fn lemma_edit_round_trip(content: Seq<char>)
    requires
        first_newline(content) < content.len(),
        trim(content.take(first_newline(content))) == content.take(first_newline(content)),
        trim(content.skip(first_newline(content) + 1)).len() > 0,
    ensures
        edited_content(edit_title(content), edit_body(content)) == content,
{
    let k = first_newline(content);
    crate::order::lemma_first_where_props(content, crate::text::is_char('\n'));
    assert(content[k] == '\n');
    assert(content.take(k).push('\n') + content.skip(k + 1) =~= content);
}

} // verus!
