//! Documents made from templates: the sections a new document starts with,
//! and when a section's earlier content is kept as a version.
use vstd::prelude::*;

verus! {

/// A section to create in a new document.
pub struct NewSection {
    pub name: String,
    pub directive: String,
    pub sort_order: i32,
}

/// Why a requested section cannot be created.
pub enum SectionError {
    MissingName,
    MissingDirective,
}

impl SectionError {
    /// The message reported for the error.
    pub fn message(&self) -> (m: &'static str)
        ensures
            m@ == (match self {
                SectionError::MissingName => "section missing name"@,
                SectionError::MissingDirective => "section missing directive"@,
            }),
    {
        match self {
            SectionError::MissingName => "section missing name",
            SectionError::MissingDirective => "section missing directive",
        }
    }
}

/// The section requested at position `index` of a new document, from the
/// fields the request carries: a name and a directive are required (the name
/// is checked first); the sort order defaults to the position and is kept in
/// 32 bits (truncated as `as i32` does).
pub fn section_fields(
    name: Option<String>,
    directive: Option<String>,
    sort_order: Option<i64>,
    index: usize,
) -> (r: Result<NewSection, SectionError>)
    requires
        index <= i64::MAX,
    ensures
        match r {
            Ok(s) => {
                &&& name matches Some(n) && s.name@ == n@
                &&& directive matches Some(d) && s.directive@ == d@
                &&& s.sort_order == (match sort_order {
                    Some(v) => v,
                    None => index as i64,
                }) as i32
            },
            Err(SectionError::MissingName) => name is None,
            Err(SectionError::MissingDirective) => name is Some && directive is None,
        },
{
    let name = match name {
        Some(n) => n,
        None => return Err(SectionError::MissingName),
    };
    let directive = match directive {
        Some(d) => d,
        None => return Err(SectionError::MissingDirective),
    };
    let order: i64 = match sort_order {
        Some(v) => v,
        None => index as i64,
    };
    Ok(NewSection { name, directive, sort_order: order as i32 })
}

/// Whether a section's content is worth keeping as a version before it is
/// replaced: only non-empty content is kept.
pub fn keeps_version(content: &str) -> (r: bool)
    ensures
        r == (content@.len() > 0),
{
    let v = crate::text::chars_of(content);
    v.len() > 0
}

} // verus!
