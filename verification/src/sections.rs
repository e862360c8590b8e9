use vstd::prelude::*;
use crate::diag::{DiagCode, Error, text};
use crate::dom::Dom;
use crate::edit::{NodeEdit, Target};
use crate::ids::{NodeId, PartId};
use crate::image::rq;
use crate::package::{Package, PartFlavor, RelTarget, RelType, Relationship, find_from};
use crate::plan::{MutationPlan, MutationResult};
use crate::session::{EditSession, CT_HEADER, CT_FOOTER};
use crate::tables::wn;
use crate::text::decimal;
use crate::track::find_first;
use crate::xml::{LocalName, NewElement, NsId, QName};

verus! {

/// Header or footer.
#[derive(Debug, Clone, Copy, PartialEq, Eq, Structural)]
pub enum HfKind {
    Header,
    Footer,
}

/// Which pages of a section a header or footer is for.
#[derive(Debug, Clone, Copy, PartialEq, Eq, Structural)]
pub enum HfVariant {
    Default,
    First,
    Even,
}

/// The `w:type` value of a variant.
pub open spec fn variant_text(v: HfVariant) -> Seq<char> {
    match v {
        HfVariant::Default => "default"@,
        HfVariant::First => "first"@,
        HfVariant::Even => "even"@,
    }
}

impl HfVariant {
    /// The `w:type` value.
    pub fn as_str(&self) -> (r: &'static str)
        ensures
            r@ == variant_text(*self),
    {
        match self {
            HfVariant::Default => "default",
            HfVariant::First => "first",
            HfVariant::Even => "even",
        }
    }
}

/// The variant a `w:type` value names: a missing value and any unknown one (such as the
/// non-schema `odd`) mean `Default`.
pub open spec fn variant_of(v: Option<Seq<char>>) -> HfVariant {
    match v {
        Some(t) => if t == "first"@ {
            HfVariant::First
        } else if t == "even"@ {
            HfVariant::Even
        } else {
            HfVariant::Default
        },
        None => HfVariant::Default,
    }
}

fn variant_from(v: Option<&String>) -> (r: HfVariant)
    ensures
        r == variant_of(match v { Some(s) => Some(s@), None => None }),
{
    match v {
        Some(t) => {
            proof {
                reveal_strlit("first");
                reveal_strlit("even");
            }
            if crate::chars::str_eq(t.as_str(), "first") {
                HfVariant::First
            } else if crate::chars::str_eq(t.as_str(), "even") {
                HfVariant::Even
            } else {
                HfVariant::Default
            }
        },
        None => HfVariant::Default,
    }
}

/// The reference element of a kind.
pub open spec fn ref_name(kind: HfKind) -> LocalName {
    match kind {
        HfKind::Header => LocalName::HeaderReference,
        HfKind::Footer => LocalName::FooterReference,
    }
}

fn ref_local(kind: HfKind) -> (r: LocalName)
    ensures
        r == ref_name(kind),
{
    match kind {
        HfKind::Header => LocalName::HeaderReference,
        HfKind::Footer => LocalName::FooterReference,
    }
}

/// The section's live reference to its `kind` of `variant`.
pub open spec fn reference_of(dom: Dom, sect: NodeId, kind: HfKind, variant: HfVariant) -> Option<NodeId> {
    find_first(dom.spec_live_children(sect), |n: NodeId| dom.named(n, wn(ref_name(kind)))
        && variant_of(dom.spec_attr(n, wn(LocalName::Type))) == variant)
}

/// Where a new reference goes: before the section's first live child that is not a
/// reference (the references come first in `w:sectPr`).
pub open spec fn reference_site(dom: Dom, sect: NodeId) -> Option<NodeId> {
    find_first(dom.spec_live_children(sect), |n: NodeId| !dom.named(n, wn(LocalName::HeaderReference))
        && !dom.named(n, wn(LocalName::FooterReference)))
}

fn find_reference(dom: &Dom, v: &Vec<NodeId>, kind: HfKind, variant: HfVariant) -> (r: Option<NodeId>)
    ensures
        r == find_first(v@, |n: NodeId| dom.named(n, wn(ref_name(kind))) && variant_of(dom.spec_attr(n, wn(LocalName::Type))) == variant),
{
    let q = QName::w(ref_local(kind));
    let mut i: usize = 0;
    assert(v@.skip(0) =~= v@);
    while i < v.len()
        invariant
            i <= v@.len(),
            q == wn(ref_name(kind)),
            find_first(v@, |n: NodeId| dom.named(n, wn(ref_name(kind))) && variant_of(dom.spec_attr(n, wn(LocalName::Type))) == variant)
                == find_first(v@.skip(i as int), |n: NodeId| dom.named(n, wn(ref_name(kind))) && variant_of(dom.spec_attr(n, wn(LocalName::Type))) == variant),
        decreases v@.len() - i,
    {
        proof {
            assert(v@.skip(i as int).drop_first() =~= v@.skip(i + 1));
            assert(v@.skip(i as int)[0] == v@[i as int]);
        }
        if dom.is(v[i], q) && variant_from(dom.attr(v[i], QName::w(LocalName::Type))) == variant {
            return Some(v[i]);
        }
        i = i + 1;
    }
    None
}

fn find_site(dom: &Dom, v: &Vec<NodeId>) -> (r: Option<NodeId>)
    ensures
        r == find_first(v@, |n: NodeId| !dom.named(n, wn(LocalName::HeaderReference)) && !dom.named(n, wn(LocalName::FooterReference))),
{
    let mut i: usize = 0;
    assert(v@.skip(0) =~= v@);
    while i < v.len()
        invariant
            i <= v@.len(),
            find_first(v@, |n: NodeId| !dom.named(n, wn(LocalName::HeaderReference)) && !dom.named(n, wn(LocalName::FooterReference)))
                == find_first(v@.skip(i as int), |n: NodeId| !dom.named(n, wn(LocalName::HeaderReference)) && !dom.named(n, wn(LocalName::FooterReference))),
        decreases v@.len() - i,
    {
        proof {
            assert(v@.skip(i as int).drop_first() =~= v@.skip(i + 1));
            assert(v@.skip(i as int)[0] == v@[i as int]);
        }
        if !dom.is(v[i], QName::w(LocalName::HeaderReference)) && !dom.is(v[i], QName::w(LocalName::FooterReference)) {
            return Some(v[i]);
        }
        i = i + 1;
    }
    None
}

/// A new reference element: `w:type` and `r:id`, in that order.
pub fn reference_element(kind: HfKind, variant: HfVariant, rid: &str) -> (e: NewElement)
    ensures
        e.name == wn(ref_name(kind)),
        e.attrs@.len() == 2,
        e.attrs@[0].0 == wn(LocalName::Type) && e.attrs@[0].1@ == variant_text(variant),
        e.attrs@[1].0 == rq(LocalName::Id) && e.attrs@[1].1@ == rid@,
        e.children@.len() == 0,
{
    let mut e = NewElement::new(QName::w(ref_local(kind)));
    e.push_attr(QName::w(LocalName::Type), variant.as_str().to_string());
    e.push_attr(QName::new(NsId::R, LocalName::Id), rid.to_string());
    e
}

/// The part a header or footer relationship `rid` of the main part points to: the first
/// such relationship with that id whose target is a part of the package.
pub open spec fn hf_rel_from(parts: Seq<crate::package::Part>, rels: Seq<Relationship>, rid: Seq<char>, k: int) -> Option<PartId>
    decreases rels.len() - k,
{
    if k < 0 || k >= rels.len() {
        None
    } else if rels[k].id@ == rid && (rels[k].kind == RelType::Header || rels[k].kind == RelType::Footer)
        && rels[k].target is Internal && find_from(parts, rels[k].target->Internal_0@, 0) is Some {
        find_from(parts, rels[k].target->Internal_0@, 0)
    } else {
        hf_rel_from(parts, rels, rid, k + 1)
    }
}

/// The part the section already uses for this kind and variant.
pub open spec fn existing_hf(pkg: Package, sect: NodeId, kind: HfKind, variant: HfVariant) -> Option<PartId> {
    match pkg.at(pkg.main).dom {
        Some(dom) => if !dom.has(sect) {
            None
        } else {
            match reference_of(dom, sect, kind, variant) {
                Some(n) => match dom.spec_attr(n, rq(LocalName::Id)) {
                    Some(rid) => hf_rel_from(pkg.parts@, pkg.at(pkg.main).rels@, rid, 0),
                    None => None,
                },
                None => None,
            }
        },
        None => None,
    }
}

fn hf_rel(pkg: &Package, rid: &String) -> (r: Option<PartId>)
    requires
        pkg.wf(),
    ensures
        r == hf_rel_from(pkg.parts@, pkg.at(pkg.main).rels@, rid@, 0),
        r matches Some(p) ==> pkg.has(p),
{
    let rels = &pkg.parts[pkg.main.0 as usize].rels;
    let mut k: usize = 0;
    while k < rels.len()
        invariant
            pkg.wf(),
            rels@ == pkg.at(pkg.main).rels@,
            k <= rels@.len(),
            hf_rel_from(pkg.parts@, rels@, rid@, 0) == hf_rel_from(pkg.parts@, rels@, rid@, k as int),
        decreases rels@.len() - k,
    {
        let rel = &rels[k];
        if crate::chars::str_eq(rel.id.as_str(), rid.as_str()) && (rel.kind == RelType::Header || rel.kind == RelType::Footer) {
            if let RelTarget::Internal(u) = &rel.target {
                if let Some(p) = pkg.find(u.as_str()) {
                    return Some(p);
                }
            }
        }
        k = k + 1;
    }
    None
}

/// The namespace URI of the relationships namespace in a flavor.
/// The relationships namespace URI of a flavor.
pub open spec fn r_ns_text(flavor: PartFlavor) -> Seq<char> {
    match flavor {
        PartFlavor::Transitional => "http://schemas.openxmlformats.org/officeDocument/2006/relationships"@,
        PartFlavor::Strict => "http://purl.oclc.org/ooxml/officeDocument/relationships"@,
    }
}

/// The main namespace URI of a flavor.
pub open spec fn w_ns_text(flavor: PartFlavor) -> Seq<char> {
    match flavor {
        PartFlavor::Transitional => "http://schemas.openxmlformats.org/wordprocessingml/2006/main"@,
        PartFlavor::Strict => "http://purl.oclc.org/ooxml/wordprocessingml/main"@,
    }
}

fn r_namespace(flavor: PartFlavor) -> (r: &'static str)
    ensures
        r@ == r_ns_text(flavor),
{
    match flavor {
        PartFlavor::Transitional => "http://schemas.openxmlformats.org/officeDocument/2006/relationships",
        PartFlavor::Strict => "http://purl.oclc.org/ooxml/officeDocument/relationships",
    }
}

/// The namespace URI of the main namespace in a flavor.
fn w_namespace(flavor: PartFlavor) -> (r: &'static str)
    ensures
        r@ == w_ns_text(flavor),
{
    match flavor {
        PartFlavor::Transitional => "http://schemas.openxmlformats.org/wordprocessingml/2006/main",
        PartFlavor::Strict => "http://purl.oclc.org/ooxml/wordprocessingml/main",
    }
}

/// The XML of a new header or footer part: one empty paragraph.
fn empty_hf_xml(flavor: PartFlavor, root: &str) -> (r: String)
    ensures
        r@ == "<?xml version=\"1.0\" encoding=\"UTF-8\" standalone=\"yes\"?><w:"@ + root@ + " xmlns:w=\""@
            + w_ns_text(flavor) + "\" xmlns:r=\""@ + r_ns_text(flavor) + "\"><w:p/></w:"@ + root@ + ">"@,
{
    let mut x = text("<?xml version=\"1.0\" encoding=\"UTF-8\" standalone=\"yes\"?><w:");
    x.append(root);
    x.append(" xmlns:w=\"");
    x.append(w_namespace(flavor));
    x.append("\" xmlns:r=\"");
    x.append(r_namespace(flavor));
    x.append("\"><w:p/></w:");
    x.append(root);
    x.append(">");
    x
}

/// The entry name of header or footer number `n`: `word/header<n>.xml` / `word/footer<n>.xml`.
pub open spec fn hf_uri(kind: HfKind, n: nat) -> Seq<char> {
    (match kind {
        HfKind::Header => "word/header"@,
        HfKind::Footer => "word/footer"@,
    }) + crate::text::spec_decimal(n) + ".xml"@
}

/// What a new header or footer part `p` came with: its entry name is that of the least number
/// `n` whose name no part of `pkg0` had, the main part's newest relationship points to it,
/// and (below the size limit) the section has a new reference child carrying that
/// relationship's id.
pub open spec fn hf_made(pkg0: Package, pkg: Package, sect: NodeId, kind: HfKind, variant: HfVariant, p: PartId) -> bool {
    let rels = pkg.at(pkg.main).rels@;
    &&& exists|n: nat| #![trigger hf_uri(kind, n)] 1 <= n && pkg.at(p).uri@ == hf_uri(kind, n)
        && find_from(pkg0.parts@, hf_uri(kind, n), 0) is None
        && forall|m: nat| 1 <= m < n ==> #[trigger] find_from(pkg0.parts@, hf_uri(kind, m), 0) is Some
    &&& rels.len() > 0
    &&& rels.last().target matches RelTarget::Internal(t) && t@ == pkg.at(p).uri@
    &&& pkg.at(pkg.main).dom matches Some(d1) && (d1.nodes@.len() + 2 < u32::MAX ==> exists|n: NodeId| #![trigger d1.at(n)]
        d1.has(n) && d1.at(n).parent == Some(sect) && d1.kids(sect).contains(n)
        && (d1.at(n).kind matches crate::dom::NodeKind::Element(el) && el.name == wn(ref_name(kind))
        && crate::edit::attr_pairs(el.attrs@) == seq![(wn(LocalName::Type), variant_text(variant)), (rq(LocalName::Id), rels.last().id@)]))
}

/// The section has no reference of this kind and variant yet, the main part has its own
/// `.rels` part (which is not the main part, nor is the content types part), and the next
/// relationship number has at most nine digits: then the part `ensure_hf_part` makes is the
/// one the section refers to afterwards.
pub open spec fn hf_fresh_link_ok(pkg: Package, sect: NodeId, kind: HfKind, variant: HfVariant) -> bool {
    &&& pkg.at(pkg.main).dom matches Some(d) && d.has(sect) && reference_of(d, sect, kind, variant) is None
    &&& pkg.at(pkg.main).rels_part matches Some(rp) && rp != pkg.main
    &&& pkg.content_types != Some(pkg.main)
    &&& crate::session::next_rid_number(pkg.at(pkg.main).rels@) < 1_000_000_000
}

/// When nothing of `s` satisfies `p`, `find_first` finds nothing.
proof fn lemma_find_first_none(s: Seq<NodeId>, p: spec_fn(NodeId) -> bool)
    ensures
        find_first(s, p) is None ==> forall|i: int| 0 <= i < s.len() ==> !p(#[trigger] s[i]),
    decreases s.len(),
{
    if s.len() > 0 && !p(s[0]) {
        lemma_find_first_none(s.drop_first(), p);
        if find_first(s, p) is None {
            assert forall|i: int| 0 <= i < s.len() implies !p(#[trigger] s[i]) by {
                if i > 0 {
                    assert(s[i] == s.drop_first()[i - 1]);
                }
            }
        }
    }
}

/// The only element of `s` that satisfies `p` is the one `find_first` finds.
proof fn lemma_find_first_only(s: Seq<NodeId>, p: spec_fn(NodeId) -> bool, y: NodeId)
    requires
        s.contains(y),
        p(y),
        forall|i: int| 0 <= i < s.len() && p(#[trigger] s[i]) ==> s[i] == y,
    ensures
        find_first(s, p) == Some(y),
{
    crate::image::lemma_find_first_in(s, p);
    lemma_find_first_none(s, p);
    let k = choose|k: int| 0 <= k < s.len() && s[k] == y;
    assert(p(s[k]));
    if let Some(x) = find_first(s, p) {
        let j = choose|j: int| 0 <= j < s.len() && s[j] == x;
        assert(p(s[j]));
    }
}

/// The newest relationship answers for its id when no older one has that id.
proof fn lemma_hf_rel_last(parts: Seq<crate::package::Part>, rels: Seq<Relationship>, rid: Seq<char>, k: int)
    requires
        0 <= k < rels.len(),
        forall|j: int| k <= j < rels.len() - 1 ==> (#[trigger] rels[j]).id@ != rid,
        rels.last().id@ == rid,
        rels.last().kind == RelType::Header || rels.last().kind == RelType::Footer,
        rels.last().target is Internal,
        find_from(parts, rels.last().target->Internal_0@, 0) is Some,
    ensures
        hf_rel_from(parts, rels, rid, k) == find_from(parts, rels.last().target->Internal_0@, 0),
    decreases rels.len() - k,
{
    if k < rels.len() - 1 {
        lemma_hf_rel_last(parts, rels, rid, k + 1);
    }
}

/// The `w:type` value of a variant reads back as that variant.
proof fn lemma_variant_round_trip(v: HfVariant)
    ensures
        variant_of(Some(variant_text(v))) == v,
{
    reveal_strlit("first");
    reveal_strlit("even");
    reveal_strlit("default");
    assert("default"@[0] == 'd' && "first"@[0] == 'f' && "even"@[0] == 'e');
    match v {
        HfVariant::Default => {
            assert("default"@ != "first"@);
            assert("default"@ != "even"@);
        },
        HfVariant::First => {},
        HfVariant::Even => {
            assert("even"@ != "first"@);
        },
    }
}

/// The part of this section's `kind` of `variant`: the one its reference points to, or a
/// new part `word/header<N>.xml` / `word/footer<N>.xml` (the first free `N`) with one empty
/// paragraph, related from the main part and referenced from the section (the reference
/// goes before the section's first non-reference child). A section that is not a live
/// element is refused by the plan check (`EditPlanInvalid`).
#[verifier::rlimit(100)]
#[verifier::spinoff_prover]
pub fn ensure_hf_part(s: &mut EditSession, sect: NodeId, kind: HfKind, variant: HfVariant) -> (r: Result<PartId, Error>)
    requires
        old(s).wf(),
        old(s).spec_pkg().parts@.len() + 16 < u32::MAX,
    ensures
        final(s).spec_pkg().wf(),
        existing_hf(old(s).spec_pkg(), sect, kind, variant) matches Some(p) ==> r == Ok::<PartId, Error>(p)
            && *final(s) == *old(s),
        r is Ok ==> final(s).wf(),
        r matches Ok(p) ==> final(s).spec_pkg().has(p),
        existing_hf(old(s).spec_pkg(), sect, kind, variant) is None ==> (r matches Ok(p) ==> final(s).spec_pkg().at(p).content_type@
            == (match kind { HfKind::Header => CT_HEADER@, HfKind::Footer => CT_FOOTER@ })
            && hf_made(old(s).spec_pkg(), final(s).spec_pkg(), sect, kind, variant, p)),
        hf_fresh_link_ok(old(s).spec_pkg(), sect, kind, variant) ==> (r matches Ok(p) ==> (final(s).spec_pkg().at(
            final(s).spec_pkg().main).dom matches Some(d1) && (d1.nodes@.len() + 2 < u32::MAX
            ==> existing_hf(final(s).spec_pkg(), sect, kind, variant) == Some(p)))),
{
    let dom = s.dom();
    let ghost pkg0 = s.spec_pkg();
    let kids = if (sect.0 as usize) < dom.node_count() { dom.live_children(sect) } else { Vec::new() };
    if let Some(node) = find_reference(dom, &kids, kind, variant) {
        if let Some(rid) = dom.attr(node, QName::new(NsId::R, LocalName::Id)) {
            if let Some(part) = hf_rel(s.package(), rid) {
                return Ok(part);
            }
        }
    }
    let (rel, ct, base, root) = match kind {
        HfKind::Header => (RelType::Header, CT_HEADER, "word/header", "hdr"),
        HfKind::Footer => (RelType::Footer, CT_FOOTER, "word/footer", "ftr"),
    };
    let limit = s.package().parts.len() + 1;
    let mut n: usize = 1;
    let mut uri = text(base);
    uri.append(decimal(n as u64).as_str());
    uri.append(".xml");
    proof {
        reveal_strlit("word/header");
        reveal_strlit("word/footer");
        reveal_strlit(".xml");
        assert(uri@ =~= hf_uri(kind, n as nat));
    }
    while n <= limit && s.package().find(uri.as_str()).is_some()
        invariant
            s.wf(),
            s.spec_pkg() == pkg0,
            limit == pkg0.parts@.len() + 1,
            1 <= n <= limit + 1,
            uri@ == hf_uri(kind, n as nat),
            base@ == (match kind {
                HfKind::Header => "word/header"@,
                HfKind::Footer => "word/footer"@,
            }),
            forall|m: nat| 1 <= m < n ==> #[trigger] find_from(pkg0.parts@, hf_uri(kind, m), 0) is Some,
        decreases limit + 1 - n,
    {
        n = n + 1;
        uri = text(base);
        uri.append(decimal(n as u64).as_str());
        uri.append(".xml");
        proof {
            reveal_strlit(".xml");
            assert(uri@ =~= hf_uri(kind, n as nat));
        }
    }
    if s.package().find(uri.as_str()).is_some() {
        return Err(Error::edit(DiagCode::EditUnsupported, text("没有空闲的页眉页脚编号")));
    }
    let xml = empty_hf_xml(s.flavor(), root);
    let main = s.main_part();
    let (part, rid) = s.add_part(main, rel, uri.as_str(), ct, xml.as_str())?;
    let dom = s.dom();
    let ghost dm = *dom;
    let mut plan = MutationPlan::new(main);
    plan.touch(sect);
    let kids = if (sect.0 as usize) < dom.node_count() { dom.live_children(sect) } else { Vec::new() };
    let before = find_site(dom, &kids);
    let node = reference_element(kind, variant, rid.as_str());
    let ghost enode = node;
    assert(crate::edit::new_attrs(node.attrs@) =~= seq![(wn(LocalName::Type), variant_text(variant)), (rq(LocalName::Id), rid@)]);
    plan.push(NodeEdit::Insert { parent: Target::Node(sect), before, node });
    let ghost edits = plan.node_edits@;
    let ghost p1 = s.spec_pkg();
    let res = s.commit_plan(plan)?;
    assert(s.spec_pkg().at(part).content_type == p1.at(part).content_type);
    proof {
        let p2 = s.spec_pkg();
        let d1 = p2.at(p2.main).dom->0;
        let tr = choose|tr: Seq<Dom>| crate::edit::applied_through(dm, edits, res.created@, tr, d1);
        assert(edits[0] == NodeEdit::Insert { parent: Target::Node(sect), before, node: enode });
        assert(tr[0] == dm && tr[1] == d1);
        if d1.nodes@.len() + 2 < u32::MAX {
            assert(crate::edit::new_parents_are_elements(dm, edits));
            assert(res.created@[0] is Some);
            let nn = res.created@[0]->0;
            assert(crate::edit::placed(d1, sect, nn, Some(enode.name)));
            assert(d1.at(nn).parent == Some(sect));
        }
        assert(p2.at(p2.main).rels == p1.at(p1.main).rels);
        assert(p2.parts@[part.0 as int].uri == p1.parts@[part.0 as int].uri) by {
            if part.0 != p2.main.0 {
                assert(p2.parts@[part.0 as int] == p1.parts@[part.0 as int]);
            }
        }
        assert(hf_made(pkg0, p2, sect, kind, variant, part));
        if hf_fresh_link_ok(pkg0, sect, kind, variant) && d1.nodes@.len() + 2 < u32::MAX {
            let main0 = pkg0.main;
            let d0 = pkg0.at(main0).dom->0;
            assert(p1.parts@[main0.0 as int].dom == pkg0.parts@[main0.0 as int].dom);
            assert(dm == d0);
            let nn = res.created@[0]->0;
            let pr1 = |x: NodeId| d1.named(x, wn(ref_name(kind))) && variant_of(d1.spec_attr(x, wn(LocalName::Type))) == variant;
            let pr0 = |x: NodeId| dm.named(x, wn(ref_name(kind))) && variant_of(dm.spec_attr(x, wn(LocalName::Type))) == variant;
            let l1 = |c: NodeId| d1.live(c);
            let l0 = |c: NodeId| dm.live(c);
            let k0 = dm.kids(sect);
            let k1 = d1.kids(sect);
            let s0 = k0.filter(l0);
            let s1 = k1.filter(l1);
            // the new reference carries the variant and the relationship id
            let el = d1.at(nn).kind->Element_0;
            assert(crate::edit::attr_pairs(el.attrs@)[0] == (el.attrs@[0].name, el.attrs@[0].value@));
            assert(crate::edit::attr_pairs(el.attrs@)[1] == (el.attrs@[1].name, el.attrs@[1].value@));
            assert(d1.spec_attr(nn, wn(LocalName::Type)) == Some(variant_text(variant)));
            assert(crate::dom::first_attr(el.attrs@, rq(LocalName::Id), 1) == Some(rid@));
            assert(crate::dom::first_attr(el.attrs@, rq(LocalName::Id), 0) == Some(rid@));
            assert(d1.spec_attr(nn, rq(LocalName::Id)) == Some(rid@));
            lemma_variant_round_trip(variant);
            assert(pr1(nn));
            assert(k1.contains(nn));
            let kn = choose|i: int| 0 <= i < k1.len() && k1[i] == nn;
            k1.lemma_filter_contains(l1, kn);
            lemma_find_first_none(s0, pr0);
            assert forall|i: int| 0 <= i < s1.len() && pr1(#[trigger] s1[i]) implies s1[i] == nn by {
                let x = s1[i];
                k1.lemma_filter_pred(l1, i);
                assert(s1.contains(x));
                k1.lemma_filter_contains_rev(l1, x);
                if x != nn {
                    let j1 = choose|j: int| 0 <= j < k1.len() && k1[j] == x;
                    assert(k0.contains(x)) by {
                        if before is Some && k0.contains(before->0) {
                            let ii = choose|ii: int| #![trigger k0[ii]] 0 <= ii < k0.len() && k0[ii] == before->0
                                && (forall|j: int| 0 <= j < ii ==> k0[j] != before->0) && k1 == k0.insert(ii, nn);
                            if j1 < ii {
                                assert(k1[j1] == k0[j1]);
                            } else {
                                assert(k1[j1] == k0[j1 - 1]);
                            }
                        } else {
                            assert(k1[j1] == k0[j1]);
                        }
                    }
                    let j0 = choose|j: int| 0 <= j < k0.len() && k0[j] == x;
                    assert(dm.has(x));
                    if x != sect {
                        assert(d1.nodes@[x.0 as int] == dm.nodes@[x.0 as int]);
                    }
                    assert(l0(x));
                    assert(pr0(x));
                    k0.lemma_filter_contains(l0, j0);
                    let m = choose|m: int| 0 <= m < s0.len() && s0[m] == x;
                    assert(!pr0(s0[m]));
                }
            }
            lemma_find_first_only(s1, pr1, nn);
            assert(reference_of(d1, sect, kind, variant) == Some(nn));
            // the relationship resolves to the new part
            let rels0 = pkg0.at(main0).rels@;
            let rels = p2.at(p2.main).rels@;
            crate::session::lemma_next_rel_id_fresh(rels0);
            assert(rels == rels0.push(rels.last()));
            assert forall|j: int| 0 <= j < rels.len() - 1 implies (#[trigger] rels[j]).id@ != rid@ by {
                assert(rels[j] == rels0[j]);
            }
            assert forall|j: int| 0 <= j < pkg0.parts@.len() implies (#[trigger] p2.parts@[j]).uri == pkg0.parts@[j].uri
                && p2.parts@[j].deleted == pkg0.parts@[j].deleted by {
                assert(crate::session::fields_kept(pkg0.parts@[j], p1.parts@[j]));
            }
            crate::session::lemma_find_appended(pkg0.parts@, p2.parts@, p2.parts@[part.0 as int].uri@, 0);
            lemma_hf_rel_last(p2.parts@, rels, rid@, 0);
            assert(existing_hf(p2, sect, kind, variant) == Some(part));
        }
    }
    s.rebuild()?;
    Ok(part)
}


/// `sect` is a live `w:sectPr` under live ancestors (deleting a paragraph leaves the state of
/// its `pPr/sectPr` alone, so the whole chain counts).
pub open spec fn live_sect(dom: Dom, sect: NodeId) -> bool {
    &&& dom.live(sect)
    &&& dom.named(sect, wn(LocalName::SectPr))
    &&& forall|i: int| 1 <= i < dom.spec_self_and_ancestors(sect).len() ==> dom.live(#[trigger] dom.spec_self_and_ancestors(sect)[i])
}

/// `Ok` for a live section ([`live_sect`]), else `EditBadPosition`.
pub fn require_sect_pr(dom: &Dom, sect: NodeId) -> (r: Result<(), Error>)
    requires
        dom.wf(),
    ensures
        r is Ok <==> live_sect(*dom, sect),
        r matches Err(e) ==> e.has_code(DiagCode::EditBadPosition),
{
    let ok = dom.is_live(sect) && dom.is(sect, QName::w(LocalName::SectPr)) && {
        let chain = dom.self_and_ancestors(sect);
        let mut all = true;
        let mut i: usize = 1;
        while i < chain.len()
            invariant
                1 <= i <= chain@.len(),
                chain@ == dom.spec_self_and_ancestors(sect),
                all == (forall|j: int| 1 <= j < i ==> dom.live(#[trigger] chain@[j])),
            decreases chain@.len() - i,
        {
            if !dom.is_live(chain[i]) {
                all = false;
            }
            i = i + 1;
        }
        all
    };
    if ok {
        Ok(())
    } else {
        let mut msg = text("节点 ");
        msg.append(decimal(sect.0 as u64).as_str());
        msg.append(" 不是活的 w:sectPr");
        Err(Error::edit(DiagCode::EditBadPosition, msg))
    }
}

/// What `link_header_footer` promises: `s0` is the session before, `s1` after, `r` the result.
pub open spec fn link_hf_done(s0: EditSession, s1: EditSession, sect: NodeId, kind: HfKind, variant: HfVariant, part: PartId, r: Result<MutationResult, Error>) -> bool {
    &&& (s1.spec_pkg().wf())
    &&& (r is Ok ==> s1.wf())
    &&& (({
            let pkg = s0.spec_pkg();
            let d = pkg.at(pkg.main).dom.unwrap();
            &&& crate::session::rel_id_from(pkg.at(pkg.main).rels@, pkg.at(part).uri@, 0) is None
                ==> (r matches Err(e) && e.has_code(DiagCode::EditPlanInvalid) && s1 == s0)
            &&& crate::session::rel_id_from(pkg.at(pkg.main).rels@, pkg.at(part).uri@, 0) is Some && !live_sect(d, sect)
                ==> (r matches Err(e) && e.has_code(DiagCode::EditBadPosition) && s1 == s0)
            &&& crate::session::rel_id_from(pkg.at(pkg.main).rels@, pkg.at(part).uri@, 0) is Some && live_sect(d, sect)
                ==> (r is Ok <==> crate::document::projectable(s1.spec_pkg()))
            &&& r matches Ok(res) ==> res.affected_blocks@ == seq![sect]
                && (reference_of(d, sect, kind, variant) is Some ==> res.created@.len() == 0
                    && s1.spec_pkg().at(s1.spec_pkg().main).dom == Some(d))
                && (reference_of(d, sect, kind, variant) is None ==> res.created@.len() == 1
                    && (s1.spec_pkg().at(s1.spec_pkg().main).dom matches Some(d1)
                    && exists|node: crate::xml::NewElement| #![trigger crate::edit::new_attrs(node.attrs@)]
                        node.name == wn(ref_name(kind)) && node.children@.len() == 0
                        && crate::edit::new_attrs(node.attrs@) == seq![(wn(LocalName::Type), variant_text(variant)),
                            (rq(LocalName::Id), crate::session::rel_id_from(pkg.at(pkg.main).rels@, pkg.at(part).uri@, 0)->0)]
                        && crate::edit::applied(d, seq![NodeEdit::Insert { parent: Target::Node(sect), before: reference_site(d, sect), node }],
                            res.created@, d1)))
        }))
}

/// Refers the section to an existing header or footer `part` for `kind` and `variant`; a
/// section that already declares that variant is left as it is (the plan has no edit). The
/// main part must relate to `part` (else `EditPlanInvalid`), and the section must be live
/// (else `EditBadPosition`); nothing changes on an error.
pub fn link_header_footer(s: &mut EditSession, sect: NodeId, kind: HfKind, variant: HfVariant, part: PartId)
    -> (r: Result<MutationResult, Error>)
    requires
        old(s).wf(),
        old(s).spec_pkg().has(part),
    ensures
        link_hf_done(*old(s), *final(s), sect, kind, variant, part, r),
{
    let main = s.main_part();
    let rid = match s.relationship_id(main, part) {
        Some(r) => r,
        None => {
            return Err(Error::edit(DiagCode::EditPlanInvalid, text("目标 part 与主 part 之间没有关系")));
        },
    };
    let dom = s.dom();
    let ghost d = *dom;
    require_sect_pr(dom, sect)?;
    let mut plan = MutationPlan::new(main);
    plan.touch(sect);
    let kids = dom.live_children(sect);
    if find_reference(dom, &kids, kind, variant).is_none() {
        let before = find_site(dom, &kids);
        let node = reference_element(kind, variant, rid.as_str());
        proof {
            assert(crate::edit::new_attrs(node.attrs@) =~= seq![(wn(LocalName::Type), variant_text(variant)), (rq(LocalName::Id), rid@)]);
            crate::image::lemma_find_first_in(d.spec_live_children(sect), |n: NodeId| !d.named(n, wn(LocalName::HeaderReference))
                && !d.named(n, wn(LocalName::FooterReference)));
            d.lemma_live_children_have(sect);
            if let Some(b) = before {
                let k = choose|k: int| 0 <= k < d.spec_live_children(sect).len() && d.spec_live_children(sect)[k] == b;
                d.kids(sect).lemma_filter_pred(|c: NodeId| d.live(c), k);
                d.kids(sect).lemma_filter_contains_rev(|c: NodeId| d.live(c), b);
            }
        }
        plan.push(NodeEdit::Insert { parent: Target::Node(sect), before, node });
    }
    assert(plan.affected_blocks@ =~= seq![sect]);
    let ghost edits = plan.node_edits@;
    proof {
        assert forall|i: int| 0 <= i < edits.len() implies crate::edit::edit_ok(d, edits, i) by {}
    }
    let r = s.commit_plan(plan);
    proof {
        if r is Ok {
            let d1 = s.spec_pkg().at(s.spec_pkg().main).dom->0;
            let tr = choose|tr: Seq<Dom>| crate::edit::applied_through(d, edits, r->Ok_0.created@, tr, d1);
            if edits.len() == 0 {
                assert(tr[0] == d1);
            } else {
                let node = edits[0]->Insert_node;
                assert(edits =~= seq![NodeEdit::Insert { parent: Target::Node(sect), before: reference_site(d, sect), node }]);
                assert(crate::edit::new_attrs(node.attrs@) == seq![(wn(LocalName::Type), variant_text(variant)), (rq(LocalName::Id), rid@)]);
            }
        }
    }
    r
}

/// The page background of the main part: its first live `w:background`.
pub open spec fn background_of(dom: Dom) -> Option<NodeId> {
    crate::drawing::child_named(dom, dom.root, wn(LocalName::Background))
}

/// The plan of a page colour change: no colour deletes the background; a colour sets its
/// `w:color`, or inserts a new `w:background` with it as the first child of the document.
pub open spec fn page_color_ok(dom: Dom, color: Option<Seq<char>>, edits: Seq<NodeEdit>) -> bool {
    match (color, background_of(dom)) {
        (None, Some(n)) => edits == seq![NodeEdit::Delete(n)],
        (None, None) => edits.len() == 0,
        (Some(c), Some(n)) => edits.len() == 1 && (edits[0] matches NodeEdit::SetAttr { node, name, value }
            && node == Target::Node(n) && name == wn(LocalName::Color) && value@ == c),
        (Some(c), None) => edits.len() == 1 && (edits[0] matches NodeEdit::Insert { parent, before, node }
            && parent == Target::Node(dom.root)
            && before == (if dom.spec_live_children(dom.root).len() > 0 { Some(dom.spec_live_children(dom.root)[0]) } else { None })
            && node.name == wn(LocalName::Background) && node.children@.len() == 0
            && crate::tables::attrs_are(node.attrs@, seq![(wn(LocalName::Color), c)])),
    }
}

/// The page colour plan for the main tree (see [`page_color_ok`]).
pub fn page_color_plan(dom: &Dom, part: PartId, color: Option<String>) -> (p: MutationPlan)
    requires
        dom.wf(),
    ensures
        p.part == part,
        p.affected_blocks@.len() == 0,
        !p.structure_changed,
        p.diagnostics@.len() == 0,
        page_color_ok(*dom, crate::track::opt_view(color), p.node_edits@),
{
    let root = dom.root();
    let kids = dom.live_children(root);
    let existing = crate::drawing::first_child_named(dom, root, QName::w(LocalName::Background));
    let mut plan = MutationPlan::new(part);
    let ghost cv = crate::track::opt_view(color);
    match (color, existing) {
        (None, Some(n)) => {
            plan.push(NodeEdit::Delete(n));
            assert(plan.node_edits@ =~= seq![NodeEdit::Delete(n)]);
        },
        (None, None) => {},
        (Some(c), Some(n)) => plan.push(NodeEdit::SetAttr { node: Target::Node(n), name: QName::w(LocalName::Color), value: c }),
        (Some(c), None) => {
            let e = NewElement::new(QName::w(LocalName::Background)).with_attr(QName::w(LocalName::Color), c);
            let before = if kids.len() > 0 { Some(kids[0]) } else { None };
            plan.push(NodeEdit::Insert { parent: Target::Node(root), before, node: e });
        },
    }
    assert(page_color_ok(*dom, cv, plan.node_edits@));
    plan
}

/// What `set_page_color` promises: `s0` is the session before, `s1` after, `r` the result.
pub open spec fn page_color_done(s0: EditSession, s1: EditSession, color: Option<String>, r: Result<MutationResult, Error>) -> bool {
    &&& (s1.spec_pkg().wf())
    &&& (r is Ok ==> s1.wf())
    &&& (s0.spec_pkg().at(s0.spec_pkg().main).dom matches Some(d) && {
                &&& d.live(d.root) && d.is_element(d.root) ==> (r is Ok || (r matches Err(e)
                    && e.has_code(DiagCode::EditUnsupported)))
                &&& d.live(d.root) && d.is_element(d.root) ==> (r is Ok <==> crate::document::projectable(s1.spec_pkg()))
                &&& r matches Ok(res) ==> res.affected_blocks@.len() == 0 && !res.structure_changed
                    && res.diagnostics@.len() == 0
                    && res.created@.len() == (if color is None && background_of(d) is None { 0int } else { 1int })
                    && (s1.spec_pkg().at(s1.spec_pkg().main).dom matches Some(d1)
                    && exists|edits: Seq<NodeEdit>| #![trigger crate::edit::applied(d, edits, res.created@, d1)]
                        page_color_ok(d, crate::track::opt_view(color), edits) && crate::edit::applied(d, edits, res.created@, d1))
            })
    &&& (r matches Err(e) ==> e.has_code(DiagCode::EditPlanInvalid) || e.has_code(DiagCode::EditUnsupported))
}

impl EditSession {
    /// Sets the page colour (`w:background/@w:color`); `None` removes the background (see
    /// [`page_color_plan`]).
    pub fn set_page_color(&mut self, color: Option<String>) -> (r: Result<MutationResult, Error>)
        requires
            old(self).wf(),
        ensures
            page_color_done(*old(self), *final(self), color, r),
    {
        let part = self.main_part();
        let dom = self.dom();
        let ghost d = *dom;
        let plan = page_color_plan(dom, part, color);
        proof {
            let es = plan.node_edits@;
            crate::image::lemma_find_first_in(d.spec_live_children(d.root), crate::image::named_pred(d, wn(LocalName::Background)));
            d.lemma_live_children_have(d.root);
            if d.live(d.root) && d.is_element(d.root) {
                if let Some(n) = background_of(d) {
                    let k = choose|k: int| 0 <= k < d.spec_live_children(d.root).len() && d.spec_live_children(d.root)[k] == n;
                    d.kids(d.root).lemma_filter_pred(|c: NodeId| d.live(c), k);
                }
                if d.spec_live_children(d.root).len() > 0 {
                    let b = d.spec_live_children(d.root)[0];
                    d.kids(d.root).lemma_filter_pred(|c: NodeId| d.live(c), 0);
                    d.kids(d.root).lemma_filter_contains_rev(|c: NodeId| d.live(c), b);
                }
                assert forall|i: int| 0 <= i < es.len() implies crate::edit::edit_ok(d, es, i) by {}
            }
        }
        let ghost edits = plan.node_edits@;
        let r = self.commit_plan(plan);
        proof {
            if r is Ok {
                let d1 = self.spec_pkg().at(self.spec_pkg().main).dom->0;
                assert(crate::edit::applied(d, edits, r->Ok_0.created@, d1));
            }
        }
        r
    }
}

} // verus!
