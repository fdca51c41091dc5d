//! The decisions of `pr edit`: the frontmatter the editor starts from, the
//! label ids needed to remove labels, and the checks on what comes back.
use vstd::prelude::*;
use crate::config::AutoMergeMethod;
use crate::frontmatter::Frontmatter;
use crate::gh::{Label, PrDetails};
use crate::remote::{base_spec_view, Target};
use crate::text::{is_blank, owned, trim};
use vstd::string::StrSliceExecFns;

verus! {

/// Why an edited PR is not sent.
#[derive(Debug, Clone, Copy, PartialEq, Eq, Structural)]
pub enum EditError {
    /// The body came back empty and `--force` was not passed.
    EmptyBody,
    /// The title is empty or white space.
    TitleEmpty,
    /// The base is empty or white space.
    BaseEmpty,
}

impl EditError {
    /// The user-facing message.
    pub open spec fn message_view(self) -> Seq<char> {
        match self {
            EditError::EmptyBody => "PR body is empty when attempting to edit. Refusing to edit to avoid data loss. Pass `--force` to override."@,
            EditError::TitleEmpty => "title is empty"@,
            EditError::BaseEmpty => "base is empty"@,
        }
    }

    /// The user-facing message.
    pub fn message(self) -> (m: String)
        ensures
            m@ == self.message_view(),
    {
        match self {
            EditError::EmptyBody => owned(
                "PR body is empty when attempting to edit. Refusing to edit to avoid data loss. Pass `--force` to override.",
            ),
            EditError::TitleEmpty => owned("title is empty"),
            EditError::BaseEmpty => owned("base is empty"),
        }
    }
}

/// The checks on an edited PR, in order: an empty body needs `--force`; the
/// title and the base must not be blank; a blank body needs `--force`. On
/// success, the number of warnings owed for a forced empty body (one per
/// check it passed by force).
pub open spec fn edit_check(title: Seq<char>, base: Seq<char>, body: Seq<char>, force: bool) -> Result<
    u8,
    EditError,
> {
    if body.len() == 0 && !force {
        Err(EditError::EmptyBody)
    } else if trim(title).len() == 0 {
        Err(EditError::TitleEmpty)
    } else if trim(base).len() == 0 {
        Err(EditError::BaseEmpty)
    } else if trim(body).len() == 0 && !force {
        Err(EditError::EmptyBody)
    } else {
        Ok(((if body.len() == 0 {
            1int
        } else {
            0int
        }) + (if trim(body).len() == 0 {
            1int
        } else {
            0int
        })) as u8)
    }
}

/// Check an edited PR before sending it.
pub fn validate_edit(fm: &Frontmatter, body: &str, force: bool) -> (r: Result<u8, EditError>)
    ensures
        r == edit_check(fm.title@, fm.base@, body@, force),
{
    let empty = body.unicode_len() == 0;
    if empty && !force {
        return Err(EditError::EmptyBody);
    }
    if is_blank(fm.title.as_str()) {
        return Err(EditError::TitleEmpty);
    }
    if is_blank(fm.base.as_str()) {
        return Err(EditError::BaseEmpty);
    }
    let blank = is_blank(body);
    if blank && !force {
        return Err(EditError::EmptyBody);
    }
    let a: u8 = if empty {
        1
    } else {
        0
    };
    let b: u8 = if blank {
        1
    } else {
        0
    };
    Ok(a + b)
}

/// The label names of a PR, in order.
pub open spec fn label_names(labels: Seq<Label>) -> Seq<Seq<char>> {
    labels.map_values(|l: Label| l.name@)
}

/// The frontmatter the editor starts from for an existing PR: its title,
/// its base as the editor shows it, its labels by name, its approvers,
/// draft and auto-merge state, and its merge method (`merge` when GitHub
/// reports none).
pub fn edit_frontmatter(details: &PrDetails, target: &Target) -> (fm: Frontmatter)
    ensures
        fm.title@ == details.title@,
        fm.base@ == base_spec_view(target.owner_view(), target.is_fork(), details.base_ref@),
        fm.labels@.map_values(|s: String| s@) == label_names(details.labels@),
        fm.reviewers@.len() == details.reviewers@.len(),
        forall|i: int|
            0 <= i < fm.reviewers@.len() ==> (#[trigger] fm.reviewers@[i]).view()
                == details.reviewers@[i].view(),
        fm.draft == details.is_draft,
        fm.auto_merge == details.auto_merge,
        fm.auto_merge_method == (match details.auto_merge_method {
            Some(m) => m,
            None => AutoMergeMethod::Merge,
        }),
{
    let mut labels: Vec<String> = Vec::new();
    let mut i: usize = 0;
    while i < details.labels.len()
        invariant
            i <= details.labels@.len(),
            labels@.map_values(|s: String| s@) == label_names(details.labels@.subrange(0, i as int)),
        decreases details.labels@.len() - i,
    {
        let ghost before = labels@.map_values(|s: String| s@);
        labels.push(owned(details.labels[i].name.as_str()));
        proof {
            assert(labels@.map_values(|s: String| s@) =~= before.push(details.labels@[i as int].name@));
            assert(label_names(details.labels@.subrange(0, i + 1)) =~= label_names(
                details.labels@.subrange(0, i as int),
            ).push(details.labels@[i as int].name@));
        }
        i = i + 1;
    }
    proof {
        assert(details.labels@.subrange(0, i as int) =~= details.labels@);
    }
    let mut reviewers: Vec<crate::reviewer::Reviewer> = Vec::new();
    let mut k: usize = 0;
    while k < details.reviewers.len()
        invariant
            k <= details.reviewers@.len(),
            reviewers@.len() == k,
            forall|j: int| 0 <= j < k ==> (#[trigger] reviewers@[j]).view() == details.reviewers@[j].view(),
        decreases details.reviewers@.len() - k,
    {
        reviewers.push(details.reviewers[k].duplicate());
        k = k + 1;
    }
    Frontmatter {
        title: owned(details.title.as_str()),
        base: target.base_spec(details.base_ref.as_str()),
        labels,
        reviewers,
        draft: details.is_draft,
        auto_merge: details.auto_merge,
        auto_merge_method: match details.auto_merge_method {
            Some(m) => m,
            None => AutoMergeMethod::Merge,
        },
    }
}

/// `(name, node id)` of each label, for removing labels by id.
pub fn label_ids(labels: &[Label]) -> (r: Vec<(String, String)>)
    ensures
        r@.map_values(|e: (String, String)| (e.0@, e.1@)) == labels@.map_values(
            |l: Label| (l.name@, l.node_id@),
        ),
{
    let mut out: Vec<(String, String)> = Vec::new();
    let mut i: usize = 0;
    while i < labels.len()
        invariant
            i <= labels@.len(),
            out@.map_values(|e: (String, String)| (e.0@, e.1@)) == labels@.subrange(0, i as int).map_values(
                |l: Label| (l.name@, l.node_id@),
            ),
        decreases labels@.len() - i,
    {
        let ghost before = out@.map_values(|e: (String, String)| (e.0@, e.1@));
        let e = (owned(labels[i].name.as_str()), owned(labels[i].node_id.as_str()));
        let ghost ev = (e.0@, e.1@);
        out.push(e);
        proof {
            assert(out@.map_values(|e: (String, String)| (e.0@, e.1@)) =~= before.push(ev));
            assert(labels@.subrange(0, i + 1).map_values(|l: Label| (l.name@, l.node_id@))
                =~= labels@.subrange(0, i as int).map_values(|l: Label| (l.name@, l.node_id@)).push(
                (labels@[i as int].name@, labels@[i as int].node_id@),
            ));
        }
        i = i + 1;
    }
    proof {
        assert(labels@.subrange(0, i as int) =~= labels@);
    }
    out
}

} // verus!
