//! Raw-event model and the classifier that maps raw filesystem change
//! events to typed PDF domain events with a display message.

use vstd::prelude::*;
use vstd::string::*;

verus! {

/// Coarse category of a raw filesystem change event, as the operating
/// system's notification facility reports it. `Other` stands for every
/// category besides create, modify and remove (rename-only, metadata,
/// access, ...), none of which yields a classified event.
#[derive(Clone, Copy, Debug, PartialEq, Eq, Structural)]
pub enum RawKind {
    Create,
    Modify,
    Remove,
    Other,
}

/// A raw change event: the affected paths (an event may report several;
/// only the first is considered) and the coarse change category.
///
/// Paths are plain strings in which `/` separates components; the base
/// name of a path is what follows its last separator.
pub struct RawEvent {
    pub paths: Vec<String>,
    pub kind: RawKind,
}

/// A classified domain event for a PDF file, carrying the path of the
/// affected file as the raw event reported it.
#[derive(Debug, PartialEq)]
pub enum PdfEvent {
    Modified(String),
    Created(String),
    Deleted(String),
}

impl Clone for PdfEvent {
    fn clone(&self) -> (r: Self)
        ensures
            r == *self,
    {
        match self {
            PdfEvent::Modified(p) => PdfEvent::Modified(p.clone()),
            PdfEvent::Created(p) => PdfEvent::Created(p.clone()),
            PdfEvent::Deleted(p) => PdfEvent::Deleted(p.clone()),
        }
    }
}

/// True if some character of `s` is the path separator.
pub open spec fn contains_separator(s: Seq<char>) -> bool {
    exists|i: int| 0 <= i < s.len() && s[i] == '/'
}

/// The base name of a path: its longest suffix free of the separator.
pub open spec fn base_name_of(s: Seq<char>) -> Seq<char>
    decreases s.len(),
{
    if contains_separator(s) {
        base_name_of(s.drop_first())
    } else {
        s
    }
}

/// True exactly when the extension of `name` is `pdf`, case-sensitively:
/// the name ends in `.pdf` and a nonempty stem precedes that dot.
pub open spec fn is_pdf_name(name: Seq<char>) -> bool {
    &&& name.len() >= 5
    &&& name[name.len() - 4] == '.'
    &&& name[name.len() - 3] == 'p'
    &&& name[name.len() - 2] == 'd'
    &&& name[name.len() - 1] == 'f'
}

/// True if the base name of `path` has the `pdf` extension.
pub open spec fn is_pdf_path(path: Seq<char>) -> bool {
    is_pdf_name(base_name_of(path))
}

/// The display message for a created PDF file with base name `name`.
pub open spec fn created_message(name: Seq<char>) -> Seq<char> {
    "New PDF file created: "@ + name
}

/// The display message for a modified PDF file with base name `name`.
pub open spec fn modified_message(name: Seq<char>) -> Seq<char> {
    "PDF file modified: "@ + name
}

/// The display message for a deleted PDF file with base name `name`.
pub open spec fn deleted_message(name: Seq<char>) -> Seq<char> {
    "PDF file deleted: "@ + name
}

/// The domain event that a raw event of category `kind` for `path`
/// classifies to. Meaningless for `Other`, which yields no event.
pub open spec fn event_for(kind: RawKind, path: String) -> PdfEvent
    recommends
        kind != RawKind::Other,
{
    match kind {
        RawKind::Create => PdfEvent::Created(path),
        RawKind::Modify => PdfEvent::Modified(path),
        RawKind::Remove => PdfEvent::Deleted(path),
        RawKind::Other => arbitrary(),
    }
}

/// The display message that a raw event of category `kind` for a file
/// with base name `name` classifies to.
pub open spec fn message_for(kind: RawKind, name: Seq<char>) -> Seq<char>
    recommends
        kind != RawKind::Other,
{
    match kind {
        RawKind::Create => created_message(name),
        RawKind::Modify => modified_message(name),
        RawKind::Remove => deleted_message(name),
        RawKind::Other => arbitrary(),
    }
}

/// If no separator occurs at or after `start` and `start` is either the
/// beginning of `s` or just past a separator, the base name of `s` is
/// exactly the suffix of `s` starting at `start`.
proof fn lemma_base_name_subrange(s: Seq<char>, start: int)
    requires
        0 <= start <= s.len(),
        forall|i: int| start <= i < s.len() ==> s[i] != '/',
        start > 0 ==> s[start - 1] == '/',
    ensures
        base_name_of(s) == s.subrange(start, s.len() as int),
    decreases s.len(),
{
    if start == 0 {
        assert(!contains_separator(s));
        assert(s.subrange(0, s.len() as int) =~= s);
    } else {
        assert(contains_separator(s)) by {
            assert(s[start - 1] == '/');
        }
        let t = s.drop_first();
        assert forall|i: int| start - 1 <= i < t.len() implies t[i] != '/' by {
            assert(t[i] == s[i + 1]);
        }
        if start - 1 > 0 {
            assert(t[start - 2] == s[start - 1]);
        }
        lemma_base_name_subrange(t, start - 1);
        assert(t.subrange(start - 1, t.len() as int) =~= s.subrange(start, s.len() as int));
    }
}

/// Classify a raw change event.
///
/// Exactly the events whose first path names a file with the `pdf`
/// extension and whose category is create, modify or remove yield a
/// classified event; it pairs the matching domain event with the
/// kind-specific display message built from the file's base name.
pub fn process_event(event: RawEvent) -> (r: Option<(PdfEvent, String)>)
    ensures
        (r is Some) <==> (event.paths.len() > 0 && is_pdf_path(event.paths[0]@)
            && event.kind != RawKind::Other),
        r matches Some(em) ==> {
            &&& em.0 == event_for(event.kind, event.paths[0])
            &&& em.1@ == message_for(event.kind, base_name_of(event.paths[0]@))
        },
{
    if event.paths.len() == 0 {
        return None;
    }
    let path: &String = &event.paths[0];
    let s: &str = path.as_str();
    let n: usize = s.unicode_len();

    // Find where the base name starts: just past the last separator.
    let mut start: usize = 0;
    let mut i: usize = 0;
    while i < n
        invariant
            0 <= start <= i <= n == s@.len(),
            forall|j: int| start <= j < i ==> s@[j] != '/',
            start > 0 ==> s@[start - 1] == '/',
        decreases n - i,
    {
        if s.get_char(i) == '/' {
            start = i + 1;
        }
        i = i + 1;
    }
    proof {
        lemma_base_name_subrange(s@, start as int);
    }
    let ghost name: Seq<char> = base_name_of(path@);

    if n - start < 5 {
        assert(!is_pdf_name(name));
        return None;
    }
    if !(s.get_char(n - 4) == '.' && s.get_char(n - 3) == 'p' && s.get_char(n - 2) == 'd'
        && s.get_char(n - 1) == 'f') {
        assert(!is_pdf_name(name));
        return None;
    }
    assert(is_pdf_name(name));

    let base: &str = s.substring_char(start, n);
    assert(base@ == name);
    match event.kind {
        RawKind::Create => {
            let msg = String::from_str("New PDF file created: ").concat(base);
            Some((PdfEvent::Created(path.clone()), msg))
        },
        RawKind::Modify => {
            let msg = String::from_str("PDF file modified: ").concat(base);
            Some((PdfEvent::Modified(path.clone()), msg))
        },
        RawKind::Remove => {
            let msg = String::from_str("PDF file deleted: ").concat(base);
            Some((PdfEvent::Deleted(path.clone()), msg))
        },
        RawKind::Other => None,
    }
}

} // verus!
