//! The kinds of document the editor tells apart.

use vstd::prelude::*;

verus! {

/// How a document is treated: markdown gets parsed and formatted, plain
/// text is left as it is.
#[derive(Debug, Clone, Copy, PartialEq, Eq, Structural)]
pub enum DocTypes {
    MD,
    TXT,
}

/// The extension that marks a markdown document.
pub open spec fn md_extension() -> Seq<char> {
    seq!['m', 'd']
}

/// The document kind that a file extension stands for.
pub open spec fn doc_type_of(ext: Option<Seq<char>>) -> DocTypes {
    match ext {
        Some(e) => if e == md_extension() { DocTypes::MD } else { DocTypes::TXT },
        None => DocTypes::TXT,
    }
}

impl DocTypes {
    /// The document kind for a file extension: `md` is markdown, anything
    /// else, or no extension, is plain text.
    pub fn for_extension(ext: &Option<String>) -> (r: DocTypes)
        ensures
            r == doc_type_of(match ext {
                Some(e) => Some(e@),
                None => None,
            }),
    {
        match ext {
            Some(e) => {
                let md = String::from_str("md");
                proof {
                    reveal_strlit("md");
                    assert(md@ =~= md_extension());
                }
                if *e == md {
                    DocTypes::MD
                } else {
                    DocTypes::TXT
                }
            },
            None => DocTypes::TXT,
        }
    }
}

} // verus!
