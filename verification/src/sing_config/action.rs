//! Actions of a provider: filters that keep or drop outbounds by matching a
//! regex against one of their fields.

use vstd::prelude::*;

use crate::sing_box::outbound::{Outbound, OutboundView};
use crate::sing_box::outbounds_view;

verus! {

/// An action on the outbounds of a provider.
#[derive(Debug, PartialEq, Eq)]
pub enum Action {
    /// Keep only the outbounds that the filter matches.
    Include(Filter),
    /// Drop the outbounds that the filter matches.
    Exclude(Filter),
}

/// The error of an action whose regex does not compile.
#[derive(Debug)]
pub struct ApplyActionError(pub regex::Error);

/// A regex and the outbound field it is matched against.
#[derive(Debug, PartialEq, Eq)]
pub struct Filter {
    pub field: OutboundField,
    pub regex: String,
}

/// The outbound fields that filters can match against.
#[derive(Debug, Clone, Copy, PartialEq, Eq, Structural)]
pub enum OutboundField {
    Type,
    Tag,
}

/// Whether `regex::Regex::new` compiles `pattern` (with the default limits).
pub uninterp spec fn regex_compiles(pattern: Seq<char>) -> bool;

/// Whether the regex that `regex::Regex::new` compiles from `pattern`
/// matches somewhere in `haystack` (`regex::Regex::is_match`).
pub uninterp spec fn regex_matches(pattern: Seq<char>, haystack: Seq<char>) -> bool;

/// The text of `field` in an outbound, where it has one: its tag, or its
/// type name (an outbound may have none).
pub open spec fn field_value(field: OutboundField, o: OutboundView) -> Option<Seq<char>> {
    match field {
        OutboundField::Type => o.kind.kind_name(),
        OutboundField::Tag => Some(o.tag),
    }
}

impl Filter {
    /// Whether the filter's regex matches the outbound's field. An outbound
    /// without a type name is ignored by a type filter: nothing matches it.
    pub open spec fn matches(self, o: OutboundView) -> bool {
        match field_value(self.field, o) {
            Some(v) => regex_matches(self.regex@, v),
            None => false,
        }
    }

    /// Compiles the filter's regex with `regex::Regex::new`. The compiled
    /// filter holds the regex compiled from `self.regex` and nothing else.
    #[verifier::external_body]
    fn compile(&self) -> (r: Result<CompiledFilter<'_>, regex::Error>)
        ensures
            r is Ok <==> regex_compiles(self.regex@),
            r matches Ok(c) ==> c.filter == self,
    {
        match regex::Regex::new(&self.regex) {
            Ok(regex) => Ok(CompiledFilter { filter: self, regex }),
            Err(e) => Err(e),
        }
    }
}

/// A filter with its regex compiled; `regex` is always the regex that
/// `regex::Regex::new` compiled from `filter.regex` (only
/// [`Filter::compile`] builds one).
struct CompiledFilter<'a> {
    filter: &'a Filter,
    regex: regex::Regex,
}

impl<'a> View for CompiledFilter<'a> {
    /// A compiled filter is seen as the pattern its regex was compiled from.
    type V = Seq<char>;

    closed spec fn view(&self) -> Seq<char> {
        self.filter.regex@
    }
}

impl<'a> CompiledFilter<'a> {
    /// `regex::Regex::is_match` on the compiled regex: whether it matches
    /// somewhere in `haystack`.
    #[verifier::external_body]
    fn regex_is_match(&self, haystack: &str) -> (r: bool)
        ensures
            r == regex_matches(self@, haystack@),
    {
        self.regex.is_match(haystack)
    }

    /// Whether the outbound's field matches the filter.
    fn is_match(&self, outbound: &Outbound) -> (r: bool)
        ensures
            r == self.filter.matches(outbound@),
    {
        match self.filter.field {
            OutboundField::Type => match outbound.kind.kind_name() {
                Some(t) => self.regex_is_match(t),
                None => false,
            },
            OutboundField::Tag => self.regex_is_match(outbound.tag.as_str()),
        }
    }
}

impl Action {
    /// The filter of the action.
    pub open spec fn filter(self) -> Filter {
        match self {
            Action::Include(f) => f,
            Action::Exclude(f) => f,
        }
    }

    /// Whether the action keeps an outbound.
    pub open spec fn keeps(self, o: OutboundView) -> bool {
        match self {
            Action::Include(f) => f.matches(o),
            Action::Exclude(f) => !f.matches(o),
        }
    }

    /// The outbounds that the action keeps, in their order.
    pub open spec fn kept(self, outbounds: Seq<OutboundView>) -> Seq<OutboundView> {
        outbounds.filter(|o: OutboundView| self.keeps(o))
    }

    /// Applies the action to a list of outbounds, returning the outbounds it
    /// keeps. Fails exactly when the filter's regex does not compile.
    pub fn apply(&self, outbounds: Vec<Outbound>) -> (r: Result<Vec<Outbound>, ApplyActionError>)
        ensures
            r is Err <==> !regex_compiles(self.filter().regex@),
            r matches Ok(v) ==> outbounds_view(v@) == self.kept(outbounds_view(outbounds@)),
    {
        let (filter, keep_matching) = match self {
            Action::Include(filter) => (filter, true),
            Action::Exclude(filter) => (filter, false),
        };
        let compiled = match filter.compile() {
            Ok(c) => c,
            Err(e) => return Err(ApplyActionError(e)),
        };
        let ghost input = outbounds_view(outbounds@);
        let ghost pred = |o: OutboundView| self.keeps(o);
        let mut kept: Vec<Outbound> = Vec::new();
        for outbound in it: outbounds
            invariant
                compiled.filter == filter,
                *self == (if keep_matching { Action::Include(*filter) } else { Action::Exclude(*filter) }),
                input == outbounds_view(it.seq()),
                pred == (|o: OutboundView| self.keeps(o)),
                outbounds_view(kept@) == input.take(it.index() as int).filter(pred),
        {
            let ghost i = it.index();
            proof {
                assert(input.take(i + 1).drop_last() =~= input.take(i as int));
                reveal(Seq::filter);
            }
            let m = compiled.is_match(&outbound);
            if m == keep_matching {
                kept.push(outbound);
                proof {
                    assert(outbounds_view(kept@) =~= outbounds_view(kept@.drop_last()).push(input[i as int]));
                }
            }
        }
        proof {
            assert(input.take(input.len() as int) =~= input);
        }
        Ok(kept)
    }
}

impl Clone for Filter {
    fn clone(&self) -> (r: Self)
        ensures
            r == *self,
    {
        Filter { field: self.field, regex: self.regex.clone() }
    }
}

impl Clone for Action {
    fn clone(&self) -> (r: Self)
        ensures
            r == *self,
    {
        match self {
            Action::Include(f) => Action::Include(f.clone()),
            Action::Exclude(f) => Action::Exclude(f.clone()),
        }
    }
}

/// Law: an `Include` and an `Exclude` with the same filter split the
/// outbounds between them: every outbound is kept by exactly one of the
/// two, so their results together are as many as the outbounds.
pub proof fn law_include_exclude_split(f: Filter, os: Seq<OutboundView>)
    ensures
        forall|o: OutboundView| Action::Include(f).keeps(o) != Action::Exclude(f).keeps(o),
        Action::Include(f).kept(os).len() + Action::Exclude(f).kept(os).len() == os.len(),
    decreases os.len(),
{
    if os.len() > 0 {
        let d = os.drop_last();
        law_include_exclude_split(f, d);
        let pi = |o: OutboundView| Action::Include(f).keeps(o);
        let pe = |o: OutboundView| Action::Exclude(f).keeps(o);
        assert(os =~= d.push(os.last()));
        d.lemma_filter_push(os.last(), pi);
        d.lemma_filter_push(os.last(), pe);
    }
}

/// Law: applying an action to what it kept keeps all of it.
pub proof fn law_apply_idempotent(a: Action, os: Seq<OutboundView>)
    ensures
        a.kept(a.kept(os)) == a.kept(os),
    decreases os.len(),
{
    let p = |o: OutboundView| a.keeps(o);
    if os.len() == 0 {
        reveal(Seq::filter);
        assert(a.kept(os) =~= os);
    } else {
        let d = os.drop_last();
        law_apply_idempotent(a, d);
        assert(os =~= d.push(os.last()));
        d.lemma_filter_push(os.last(), p);
        if p(os.last()) {
            a.kept(d).lemma_filter_push(os.last(), p);
        }
    }
}

/// Law: a filter on the tag looks at the tag and nothing else: it matches
/// an outbound exactly when its regex matches the outbound's tag, so two
/// outbounds with the same tag are kept or dropped alike, whatever their
/// kinds.
pub proof fn law_tag_filter_reads_tag(f: Filter, o: OutboundView, p: OutboundView)
    requires
        f.field == OutboundField::Tag,
    ensures
        f.matches(o) == regex_matches(f.regex@, o.tag),
        o.tag == p.tag ==> f.matches(o) == f.matches(p),
        o.tag == p.tag ==> Action::Include(f).keeps(o) == Action::Include(f).keeps(p),
        o.tag == p.tag ==> Action::Exclude(f).keeps(o) == Action::Exclude(f).keeps(p),
{
}

/// Law: a filter on the type matches an outbound exactly when the outbound
/// has a type name and its regex matches that name; the tag plays no part,
/// and an outbound without a type name is matched by no type filter.
pub proof fn law_type_filter_reads_type(f: Filter, o: OutboundView, p: OutboundView)
    requires
        f.field == OutboundField::Type,
    ensures
        f.matches(o) == (match o.kind.kind_name() {
            Some(t) => regex_matches(f.regex@, t),
            None => false,
        }),
        o.kind.kind_name() is None ==> !f.matches(o),
        o.kind == p.kind ==> f.matches(o) == f.matches(p),
{
}

/// Law: an action keeps an outbound exactly when its filter matches it (an
/// `Include`) or exactly when it does not (an `Exclude`); what it keeps is
/// those outbounds, in their order.
pub proof fn law_action_keeps(a: Action, os: Seq<OutboundView>)
    ensures
        forall|o: OutboundView| #[trigger] a.keeps(o) == (a.filter().matches(o) == (a is Include)),
        forall|i: int| 0 <= i < a.kept(os).len() ==> a.keeps(#[trigger] a.kept(os)[i]) && os.contains(a.kept(os)[i]),
        forall|i: int| 0 <= i < os.len() && a.keeps(#[trigger] os[i]) ==> a.kept(os).contains(os[i]),
{
    let pred = |o: OutboundView| a.keeps(o);
    assert forall|i: int| 0 <= i < a.kept(os).len() implies a.keeps(#[trigger] a.kept(os)[i]) && os.contains(a.kept(os)[i]) by {
        os.lemma_filter_pred(pred, i);
        assert(a.kept(os).contains(a.kept(os)[i]));
        os.lemma_filter_contains_rev(pred, a.kept(os)[i]);
    }
    assert forall|i: int| 0 <= i < os.len() && a.keeps(#[trigger] os[i]) implies a.kept(os).contains(os[i]) by {
        os.lemma_filter_contains(pred, i);
    }
}

} // verus!
