//! The metadata block prefixed to a content file, and the delimiter logic
//! that splits a document into that block and its body.
//!
//! A document must open with a `---` delimiter line, contain a metadata
//! block, a closing `---` line, then the body; a missing delimiter is a
//! fatal parse error naming the offending file.

use vstd::prelude::*;
use vstd::string::*;

use crate::error::ForgeError;
use crate::text::trim_leading_matching;
use crate::text::trim_start_matching;

verus! {

/// Parsed front-matter fields of one content file. The date is a Unix
/// timestamp in seconds; `extra` carries the free-form metadata keys, each
/// value in a canonical string encoding.
#[derive(Debug, Clone)]
pub struct FrontMatter {
    pub title: String,
    pub date: Option<i64>,
    pub draft: bool,
    pub slug: Option<String>,
    pub description: Option<String>,
    pub summary: Option<String>,
    pub categories: Vec<String>,
    pub tags: Vec<String>,
    pub template: Option<String>,
    pub extra: Vec<(String, String)>,
}

/// The document with any leading byte-order marks removed.
pub open spec fn spec_fm_stripped(c: Seq<char>) -> Seq<char> {
    trim_start_matching(c, '\u{feff}')
}

/// Whether the document opens with the `---` delimiter.
pub open spec fn spec_fm_opening(c: Seq<char>) -> bool {
    let s = spec_fm_stripped(c);
    s.len() >= 3 && s.subrange(0, 3) == "---"@
}

/// Everything after the opening delimiter.
pub open spec fn spec_fm_after(c: Seq<char>) -> Seq<char> {
    spec_fm_stripped(c).skip(3)
}

/// Whether the closing delimiter pattern starts at position `i`.
pub open spec fn has_close_at(s: Seq<char>, i: int) -> bool {
    0 <= i && i + 4 <= s.len() && s.subrange(i, i + 4) == "\n---"@
}

/// Whether a closing delimiter exists at all.
pub open spec fn spec_fm_has_close(c: Seq<char>) -> bool {
    exists|i: int| has_close_at(spec_fm_after(c), i)
}

/// Split a document at its `---` delimiters into the metadata block and the
/// body, the body with its leading newlines removed. Fails, naming the
/// file, exactly when either delimiter is missing.
pub fn split_front_matter(content: &str, path: &str) -> (r: Result<
    (String, String),
    ForgeError,
>)
    ensures
        r is Ok <==> spec_fm_opening(content@) && spec_fm_has_close(content@),
        r matches Ok(yb) ==> ({
            let after = spec_fm_after(content@);
            &&& has_close_at(after, yb.0@.len() as int)
            &&& forall|j: int| 0 <= j < yb.0@.len() ==> !has_close_at(after, j)
            &&& yb.0@ == after.subrange(0, yb.0@.len() as int)
            &&& yb.1@ == trim_start_matching(after.skip(yb.0@.len() as int + 4), '\n')
        }),
        !spec_fm_opening(content@) ==> (r matches Err(e) && e matches ForgeError::FrontMatter {
            path: p,
            message: m,
        } && p@ == path@ && m@ == "Missing opening --- delimiter"@),
        spec_fm_opening(content@) && !spec_fm_has_close(content@) ==> (r matches Err(e)
            && e matches ForgeError::FrontMatter { path: p, message: m } && p@ == path@ && m@
            == "Missing closing --- delimiter"@),
{
    proof {
        reveal_strlit("---");
        reveal_strlit("\n---");
    }
    let stripped = trim_leading_matching(content, '\u{feff}');
    let slen = stripped.as_str().unicode_len();
    let opening = slen >= 3 && stripped.as_str().get_char(0) == '-' && stripped.as_str().get_char(
        1,
    ) == '-' && stripped.as_str().get_char(2) == '-';
    proof {
        if opening {
            assert(stripped@.subrange(0, 3) =~= "---"@);
        } else if slen >= 3 {
            if stripped@.subrange(0, 3) == "---"@ {
                assert(stripped@.subrange(0, 3)[0] == '-');
                assert(stripped@.subrange(0, 3)[1] == '-');
                assert(stripped@.subrange(0, 3)[2] == '-');
            }
        }
        assert(opening == spec_fm_opening(content@));
    }
    if !opening {
        return Err(
            ForgeError::FrontMatter {
                path: path.to_owned(),
                message: "Missing opening --- delimiter".to_owned(),
            },
        );
    }

    let after = stripped.as_str().substring_char(3, slen);
    let alen = slen - 3;
    proof {
        assert(after@ =~= spec_fm_after(content@));
        assert(after@.len() == alen);
    }
    let mut i: usize = 0;
    if alen >= 4 {
        while i <= alen - 4
            invariant
                alen >= 4,
                alen == after@.len(),
                after@ == spec_fm_after(content@),
                spec_fm_opening(content@),
                i <= alen,
                forall|j: int| 0 <= j < i ==> !has_close_at(after@, j),
            decreases alen - i,
        {
            let hit = after.get_char(i) == '\n' && after.get_char(i + 1) == '-'
                && after.get_char(i + 2) == '-' && after.get_char(i + 3) == '-';
            proof {
                reveal_strlit("\n---");
                if hit {
                    assert(after@.subrange(i as int, i + 4) =~= "\n---"@);
                    assert(has_close_at(after@, i as int));
                } else {
                    if after@.subrange(i as int, i + 4) == "\n---"@ {
                        assert(after@.subrange(i as int, i + 4)[0] == '\n');
                        assert(after@.subrange(i as int, i + 4)[1] == '-');
                        assert(after@.subrange(i as int, i + 4)[2] == '-');
                        assert(after@.subrange(i as int, i + 4)[3] == '-');
                    }
                    assert(!has_close_at(after@, i as int));
                }
            }
            if hit {
                let yaml = after.substring_char(0, i);
                let rest = after.substring_char(i + 4, alen);
                let body = trim_leading_matching(rest, '\n');
                proof {
                    assert(rest@ =~= after@.skip(i + 4));
                }
                return Ok((yaml.to_owned(), body));
            }
            i = i + 1;
        }
    }
    proof {
        assert forall|j: int| !has_close_at(after@, j) by {
            if 0 <= j < i {
            } else if j + 4 > after@.len() || j < 0 {
            }
        }
        assert(!spec_fm_has_close(content@));
    }
    Err(
        ForgeError::FrontMatter {
            path: path.to_owned(),
            message: "Missing closing --- delimiter".to_owned(),
        },
    )
}

} // verus!
