//! Remarks: records of what a redaction rule did to a span of text.
use vstd::prelude::*;

verus! {

/// The strategy a redaction rule used on a span of text.
#[derive(Clone, Copy, Debug, PartialEq, Eq, Structural)]
pub enum RemarkType {
    /// The content was removed entirely.
    Removed,
    /// The content was replaced by a placeholder.
    Substituted,
    /// The content was overwritten with mask characters.
    Masked,
    /// The content was replaced by a stable pseudonym.
    Pseudonymized,
    /// The content was deleted together with its key.
    Deleted,
}

/// One annotation event: a rule id, the kind of change, and the byte range of
/// the owning string that it applies to, if it applies to a range at all.
#[derive(Clone, Debug, PartialEq)]
pub struct Remark {
    pub ty: RemarkType,
    pub rule_id: String,
    pub range: Option<(usize, usize)>,
}

/// The mathematical value of a remark.
pub struct RemarkView {
    pub ty: RemarkType,
    pub rule_id: Seq<char>,
    pub range: Option<(usize, usize)>,
}

impl View for Remark {
    type V = RemarkView;

    open spec fn view(&self) -> RemarkView {
        RemarkView { ty: self.ty, rule_id: self.rule_id@, range: self.range }
    }
}

impl Remark {
    /// A remark that is not tied to a span of the value.
    pub fn new(ty: RemarkType, rule_id: &str) -> (r: Remark)
        ensures
            r@ == (RemarkView { ty, rule_id: rule_id@, range: None }),
    {
        Remark { ty, rule_id: rule_id.to_owned(), range: None }
    }

    /// A remark on the byte range `range.0 .. range.1` of the value.
    pub fn with_range(ty: RemarkType, rule_id: &str, range: (usize, usize)) -> (r: Remark)
        ensures
            r@ == (RemarkView { ty, rule_id: rule_id@, range: Some(range) }),
    {
        Remark { ty, rule_id: rule_id.to_owned(), range: Some(range) }
    }

    /// The byte range this remark applies to.
    pub fn range(&self) -> (r: Option<&(usize, usize)>)
        ensures
            r matches Some(p) ==> self.range == Some(*p),
            r is None <==> self.range is None,
    {
        match &self.range {
            Some(p) => Some(p),
            None => None,
        }
    }

    /// The id of the rule that produced this remark.
    pub fn rule_id(&self) -> (r: &str)
        ensures
            r@ == self.rule_id@,
    {
        self.rule_id.as_str()
    }

    /// The kind of change the rule made.
    pub fn ty(&self) -> (r: RemarkType)
        ensures
            r == self.ty,
    {
        self.ty
    }
}

} // verus!
