use vstd::prelude::*;
use crate::diag::{DiagCode, Diagnostic, Error, text};
use crate::document::{Document, doc_of};
use crate::dom::Dom;
use crate::ids::{NodeId, PartId};
use crate::locate::locate_from;
use crate::model::TextBlock;
use crate::package::{Package, PartFlavor, RelTarget, RelType, Relationship, CT_RELS, rel_type_uri};
use crate::xml::{LocalName, NewElement, NsId, QName};
use crate::edit::{NodeEdit, Target};
use crate::text::concat;
use crate::plan::{MutationPlan, MutationResult};
use crate::position::{InlinePos, Loc};
use crate::text::decimal;

verus! {

/// An editing session: the package, its projection, and the diagnostics raised while
/// editing.
#[derive(Debug)]
pub struct EditSession {
    pkg: Package,
    doc: Document,
    diagnostics: Vec<Diagnostic>,
    /// Media added in this session, by content: (mime, bytes, relationship id).
    media: Vec<(String, Vec<u8>, String)>,
}

/// The first relationship of `rels` (from `k` on) whose internal target is `uri`.
pub open spec fn rel_id_from(rels: Seq<crate::package::Relationship>, uri: Seq<char>, k: int) -> Option<Seq<char>>
    decreases rels.len() - k,
{
    if k < 0 || k >= rels.len() {
        None
    } else if rels[k].target matches RelTarget::Internal(u) && u@ == uri {
        Some(rels[k].id@)
    } else {
        rel_id_from(rels, uri, k + 1)
    }
}

/// The first block of `blocks` whose paragraph is `para`.
pub open spec fn block_of(blocks: Seq<TextBlock>, para: NodeId) -> Option<TextBlock> {
    if exists|i: int| 0 <= i < blocks.len() && blocks[i].node == para {
        let i = choose|i: int| 0 <= i < blocks.len() && blocks[i].node == para && forall|j: int| 0 <= j < i ==> (#[trigger] blocks[j]).node != para;
        Some(blocks[i])
    } else {
        None
    }
}

/// What `replace_part_xml` promises: `s0` is the session before, `s1` after, `r` the result.
pub open spec fn part_xml_done(s0: EditSession, s1: EditSession, part: PartId, xml: Seq<char>, r: Result<(), Error>) -> bool {
    &&& (s1.spec_pkg().wf())
    &&& (!s0.spec_pkg().has(part) ==> (r matches Err(e) && e.has_code(DiagCode::EditTargetMissing)
                && s1 == s0))
    &&& (s0.spec_pkg().has(part) && !s0.spec_pkg().at(part).is_xml ==> (r matches Err(e)
                && e.has_code(DiagCode::EditTargetOpaque) && s1 == s0))
    &&& (r matches Err(e) && e.has_code(DiagCode::XmlNotWellFormed) ==> s1 == s0)
    &&& (r is Ok ==> s1.wf() && s0.spec_pkg().has(part) && s0.spec_pkg().at(part).is_xml
                && (s1.spec_pkg().at(part).dom matches Some(d) && d.part == part
                && crate::parse::tree_view(d) == crate::parse::xml_tree(xml)->0))
    &&& (s0.spec_pkg().has(part) && s0.spec_pkg().at(part).is_xml ==> ((r matches Err(e) && e.has_code(DiagCode::XmlNotWellFormed))
                <==> crate::parse::xml_tree(xml) is None))
    &&& (s0.spec_pkg().has(part) && s0.spec_pkg().at(part).is_xml && crate::parse::xml_tree(xml) is Some
                ==> (r is Ok <==> crate::document::projectable(s1.spec_pkg())) && (part != s0.spec_pkg().main ==> r is Ok))
    &&& (r matches Err(e) ==> (e.has_code(DiagCode::XmlNotWellFormed) || e.has_code(DiagCode::EditUnsupported))
                ==> s0.spec_pkg().has(part) && s0.spec_pkg().at(part).is_xml)
    &&& (forall|j: int| 0 <= j < s0.spec_pkg().parts@.len() && j != part.0 ==> #[trigger] s1.spec_pkg().parts@[j]
                == s0.spec_pkg().parts@[j])
    &&& (s1.spec_diags() == s0.spec_diags())
}

/// What `replace_part_bytes` promises: `s0` is the session before, `s1` after, `r` the result.
pub open spec fn part_bytes_done(s0: EditSession, s1: EditSession, part: PartId, bytes: Seq<u8>, r: Result<(), Error>) -> bool {
    &&& (s1.spec_pkg().wf())
    &&& (!s0.spec_pkg().has(part) ==> (r matches Err(e) && e.has_code(DiagCode::EditTargetMissing)
                && s1 == s0))
    &&& (s0.spec_pkg().has(part) && part == s0.spec_pkg().main ==> (r matches Err(e)
                && e.has_code(DiagCode::EditUnsupported) && s1 == s0))
    &&& (s0.spec_pkg().has(part) && part != s0.spec_pkg().main ==> s1.spec_pkg().at(part).bytes@ == bytes
                && s1.spec_pkg().at(part).dom is None && r is Ok && s1.wf())
    &&& (forall|j: int| 0 <= j < s0.spec_pkg().parts@.len() && j != part.0 ==> #[trigger] s1.spec_pkg().parts@[j]
                == s0.spec_pkg().parts@[j])
    &&& (s1.spec_diags() == s0.spec_diags())
}

impl EditSession {
    pub closed spec fn spec_pkg(&self) -> Package {
        self.pkg
    }

    pub closed spec fn spec_doc(&self) -> Document {
        self.doc
    }

    pub closed spec fn spec_diags(&self) -> Seq<Diagnostic> {
        self.diagnostics@
    }

    /// The media added in this session: (media type, contents, relationship id).
    pub closed spec fn spec_media(&self) -> Seq<(Seq<char>, Seq<u8>, Seq<char>)> {
        self.media@.map_values(|m: (String, Vec<u8>, String)| (m.0@, m.1@, m.2@))
    }

    /// The package is well formed, the projection is the projection of the package, and
    /// every paragraph of the main part fits the offset type.
    pub open spec fn wf(&self) -> bool {
        self.spec_pkg().wf() && doc_of(self.spec_pkg(), self.spec_doc()) && crate::document::projectable(self.spec_pkg())
    }

    /// A session over `pkg`; fails when the package cannot be projected.
    pub fn from_package(pkg: Package) -> (r: Result<EditSession, Error>)
        requires
            pkg.wf(),
        ensures
            r is Ok <==> crate::document::projectable(pkg),
            r matches Ok(s) ==> s.wf() && s.spec_pkg() == pkg && s.spec_diags().len() == 0 && s.spec_media().len() == 0,
            r matches Err(e) ==> e.has_code(DiagCode::EditUnsupported),
    {
        let doc = Document::rebuild(&pkg)?;
        Ok(EditSession { pkg, doc, diagnostics: Vec::new(), media: Vec::new() })
    }

    /// The projection.
    pub fn document(&self) -> (r: &Document)
        ensures
            *r == self.spec_doc(),
    {
        &self.doc
    }

    /// The package.
    pub fn package(&self) -> (r: &Package)
        ensures
            *r == self.spec_pkg(),
    {
        &self.pkg
    }

    /// The package, to change directly; call [`EditSession::rebuild`] afterwards.
    pub fn package_mut(&mut self) -> (r: &mut Package)
        ensures
            *r == old(self).spec_pkg(),
            final(self).spec_pkg() == *final(r),
            final(self).spec_doc() == old(self).spec_doc(),
            final(self).spec_diags() == old(self).spec_diags(),
    {
        &mut self.pkg
    }

    /// The main document part.
    pub fn main_part(&self) -> (r: PartId)
        ensures
            r == self.spec_pkg().main,
    {
        self.pkg.main_part()
    }

    /// The tree of the main part.
    pub fn dom(&self) -> (r: &Dom)
        requires
            self.wf(),
        ensures
            Some(*r) == self.spec_pkg().at(self.spec_pkg().main).dom,
    {
        match self.pkg.dom(self.pkg.main_part()) {
            Some(d) => d,
            None => {
                proof {
                    assert(false);
                }
                self.pkg.dom(self.pkg.main_part()).unwrap()
            },
        }
    }

    /// The flavor of the main part.
    pub fn flavor(&self) -> (r: PartFlavor)
        requires
            self.wf(),
        ensures
            r == self.spec_pkg().at(self.spec_pkg().main).flavor,
    {
        self.pkg.flavor_of(self.pkg.main_part())
    }

    /// The part of a position: `None` is the main part.
    pub fn part_or_main(&self, part: Option<PartId>) -> (r: PartId)
        ensures
            r == match part {
                Some(p) => p,
                None => self.spec_pkg().main,
            },
    {
        match part {
            Some(p) => p,
            None => self.pkg.main_part(),
        }
    }

    /// The tree of a part: `EditTargetOpaque` for XML that could not be parsed,
    /// `EditBadPosition` for a part that is not XML.
    pub fn dom_in(&self, part: Option<PartId>) -> (r: Result<&Dom, Error>)
        requires
            self.wf(),
            part matches Some(p) ==> self.spec_pkg().has(p),
        ensures
            ({
                let id = match part {
                    Some(p) => p,
                    None => self.spec_pkg().main,
                };
                match self.spec_pkg().at(id).dom {
                    Some(d) => r == Ok::<&Dom, Error>(&d),
                    None => r matches Err(e) && e.has_code((if self.spec_pkg().at(id).opaque {
                        DiagCode::EditTargetOpaque
                    } else {
                        DiagCode::EditBadPosition
                    })),
                }
            }),
    {
        let id = self.part_or_main(part);
        match self.pkg.dom(id) {
            Some(d) => Ok(d),
            None => {
                let code = if self.pkg.part(id).opaque {
                    DiagCode::EditTargetOpaque
                } else {
                    DiagCode::EditBadPosition
                };
                let mut msg = text("part ");
                msg.append(&decimal(id.0 as u64));
                msg.append(" 没有可编辑的 XML");
                Err(Error::edit(code, msg))
            },
        }
    }

    /// The flavor of a part (`None` is the main part).
    pub fn flavor_in(&self, part: Option<PartId>) -> (r: PartFlavor)
        requires
            self.wf(),
            part matches Some(p) ==> self.spec_pkg().has(p),
        ensures
            r == self.spec_pkg().at(
                match part {
                    Some(p) => p,
                    None => self.spec_pkg().main,
                },
            ).flavor,
    {
        self.pkg.flavor_of(self.part_or_main(part))
    }

    /// The id of `owner`'s first relationship to part `target`.
    pub fn relationship_id(&self, owner: PartId, target: PartId) -> (r: Option<String>)
        requires
            self.spec_pkg().has(owner),
            self.spec_pkg().has(target),
        ensures
            match rel_id_from(self.spec_pkg().at(owner).rels@, self.spec_pkg().at(target).uri@, 0) {
                Some(id) => r matches Some(s) && s@ == id,
                None => r is None,
            },
    {
        let uri = &self.pkg.part(target).uri;
        let rels = &self.pkg.part(owner).rels;
        for k in 0..rels.len()
            invariant
                rels@ == self.spec_pkg().at(owner).rels@,
                *uri == self.spec_pkg().at(target).uri,
                rel_id_from(rels@, uri@, 0) == rel_id_from(rels@, uri@, k as int),
        {
            if let RelTarget::Internal(u) = &rels[k].target {
                if crate::chars::str_eq(u.as_str(), uri.as_str()) {
                    return Some(rels[k].id.clone());
                }
            }
        }
        None
    }

    /// The text paragraph `para` of the main part.
    pub fn text_block(&self, para: NodeId) -> (r: Option<&TextBlock>)
        ensures
            r matches Some(tb) ==> tb.node == para && exists|i: int| 0 <= i < self.spec_doc().blocks@.len()
                && self.spec_doc().blocks@[i] == *tb,
            r is None ==> forall|i: int| 0 <= i < self.spec_doc().blocks@.len() ==> (#[trigger] self.spec_doc().blocks@[i]).node != para,
    {
        self.doc.text_block(para)
    }

    /// The text paragraph `para` of a part (`None` is the main part); the projection covers
    /// the main part only, so other parts have none.
    pub fn text_block_in(&self, part: Option<PartId>, para: NodeId) -> (r: Option<&TextBlock>)
        ensures
            self.part_or_main_spec(part) != self.spec_doc().main ==> r is None,
            self.part_or_main_spec(part) == self.spec_doc().main ==> (r matches Some(tb) ==> tb.node == para
                && exists|i: int| 0 <= i < self.spec_doc().blocks@.len() && self.spec_doc().blocks@[i] == *tb),
            self.part_or_main_spec(part) == self.spec_doc().main && r is None ==> forall|i: int|
                0 <= i < self.spec_doc().blocks@.len() ==> (#[trigger] self.spec_doc().blocks@[i]).node != para,
    {
        let id = self.part_or_main(part);
        if id != self.doc.main {
            return None;
        }
        self.doc.text_block(para)
    }

    pub open spec fn part_or_main_spec(&self, part: Option<PartId>) -> PartId {
        match part {
            Some(p) => p,
            None => self.spec_pkg().main,
        }
    }

    /// The `i`-th text paragraph of the main part.
    pub fn nth_text_block(&self, i: usize) -> (r: Option<&TextBlock>)
        ensures
            i < self.spec_doc().blocks@.len() ==> r == Some(&self.spec_doc().blocks@[i as int]),
            i >= self.spec_doc().blocks@.len() ==> r is None,
    {
        if i < self.doc.blocks.len() {
            Some(&self.doc.blocks[i])
        } else {
            None
        }
    }

    /// Locates a position in a text paragraph of the main part: `EditBadPosition` when
    /// `pos.para` is not one, otherwise as [`crate::position::Utf16Offset::locate`].
    pub fn locate(&self, pos: InlinePos) -> (r: Result<Loc, Error>)
        requires
            self.wf(),
        ensures
            (forall|i: int| 0 <= i < self.spec_doc().blocks@.len() ==> (#[trigger] self.spec_doc().blocks@[i]).node != pos.para)
                ==> (r matches Err(e) && e.has_code(DiagCode::EditBadPosition)),
            (exists|i: int| 0 <= i < self.spec_doc().blocks@.len() && (#[trigger] self.spec_doc().blocks@[i]).node == pos.para)
                ==> exists|i: int| #![trigger self.spec_doc().blocks@[i]] 0 <= i < self.spec_doc().blocks@.len()
                && self.spec_doc().blocks@[i].node == pos.para && match locate_from(self.spec_doc().blocks@[i].inlines@, 0, 0, pos.offset.0 as int) {
                    Ok(l) => r == Ok::<Loc, Error>(l),
                    Err(c) => r matches Err(e) && e.has_code(c),
                },
    {
        match self.doc.text_block(pos.para) {
            Some(tb) => {
                proof {
                    let i = choose|i: int| 0 <= i < self.spec_doc().blocks@.len() && self.spec_doc().blocks@[i] == *tb;
                    assert(crate::locate::block_fits(&self.spec_doc().blocks@[i]));
                }
                pos.offset.locate(tb)
            },
            None => Err(Error::edit(DiagCode::EditBadPosition, text("不是正文文本段落"))),
        }
    }

    /// Records one diagnostic.
    pub fn push_diagnostic(&mut self, diag: Diagnostic)
        ensures
            final(self).spec_diags() == old(self).spec_diags().push(diag),
            final(self).spec_pkg().parts == old(self).spec_pkg().parts,
            final(self).spec_pkg().main == old(self).spec_pkg().main,
            final(self).spec_pkg().content_types == old(self).spec_pkg().content_types,
            final(self).spec_pkg().diagnostics@ == old(self).spec_pkg().diagnostics@.push(diag),
            final(self).spec_pkg().defaults == old(self).spec_pkg().defaults,
            final(self).spec_pkg().overrides == old(self).spec_pkg().overrides,
            final(self).spec_doc() == old(self).spec_doc(),
            final(self).spec_media() == old(self).spec_media(),
            old(self).wf() ==> final(self).wf(),
    {
        let mut v: Vec<Diagnostic> = Vec::new();
        v.push(diag);
        self.record(v);
        assert(seq![diag] =~= Seq::<Diagnostic>::empty().push(diag));
    }

    /// Records diagnostics, in the session and in the package.
    pub fn record(&mut self, diags: Vec<Diagnostic>)
        ensures
            final(self).spec_diags() == old(self).spec_diags() + diags@,
            final(self).spec_pkg().parts == old(self).spec_pkg().parts,
            final(self).spec_pkg().main == old(self).spec_pkg().main,
            final(self).spec_pkg().content_types == old(self).spec_pkg().content_types,
            final(self).spec_pkg().defaults == old(self).spec_pkg().defaults,
            final(self).spec_pkg().overrides == old(self).spec_pkg().overrides,
            final(self).spec_pkg().diagnostics@ == old(self).spec_pkg().diagnostics@ + diags@,
            final(self).spec_doc() == old(self).spec_doc(),
            final(self).spec_media() == old(self).spec_media(),
            old(self).wf() ==> final(self).wf(),
    {
        if diags.len() == 0 {
            assert(old(self).spec_diags() + diags@ =~= old(self).spec_diags());
            assert(self.pkg.diagnostics@ + diags@ =~= self.pkg.diagnostics@);
            return;
        }
        for i in 0..diags.len()
            invariant
                self.diagnostics@ == old(self).diagnostics@ + diags@.take(i as int),
                self.pkg == old(self).pkg,
                self.doc == old(self).doc,
                self.media == old(self).media,
        {
            self.diagnostics.push(diags[i].duplicate());
            assert(diags@.take(i + 1) =~= diags@.take(i as int).push(diags@[i as int]));
            assert(self.diagnostics@ =~= old(self).diagnostics@ + diags@.take(i + 1));
        }
        assert(diags@.take(diags@.len() as int) =~= diags@);
        self.pkg.push_diagnostics(diags);
    }

    /// The diagnostics recorded while editing.
    pub fn diagnostics(&self) -> (r: &[Diagnostic])
        ensures
            r@ == self.spec_diags(),
    {
        self.diagnostics.as_slice()
    }

    /// Whether the document asks for personal information to be removed on save.
    pub fn remove_personal_info_flag(&self) -> (r: bool)
        ensures
            r == (self.spec_doc().settings matches Some(s) && s.remove_personal_information == Some(true)),
    {
        match &self.doc.settings {
            Some(s) => s.remove_personal_information == Some(true),
            None => false,
        }
    }

    /// Whether the document asks for dates to be removed on save.
    pub fn remove_date_and_time_flag(&self) -> (r: bool)
        ensures
            r == (self.spec_doc().settings matches Some(s) && s.remove_date_and_time == Some(true)),
    {
        match &self.doc.settings {
            Some(s) => s.remove_date_and_time == Some(true),
            None => false,
        }
    }

    /// Rebuilds the projection from the package.
    pub fn rebuild(&mut self) -> (r: Result<(), Error>)
        requires
            old(self).spec_pkg().wf(),
        ensures
            final(self).spec_media() == old(self).spec_media(),
            final(self).spec_pkg() == old(self).spec_pkg(),
            final(self).spec_diags() == old(self).spec_diags(),
            r is Ok <==> crate::document::projectable(old(self).spec_pkg()),
            r is Ok ==> final(self).wf(),
            r is Err ==> final(self).spec_doc() == old(self).spec_doc(),
            r matches Err(e) ==> e.has_code(DiagCode::EditUnsupported),
    {
        let doc = Document::rebuild(&self.pkg)?;
        self.doc = doc;
        Ok(())
    }

    /// One stage of an edit: the plan is validated against its part and committed, the
    /// plan's diagnostics are recorded, and the projection is rebuilt. An invalid plan (or a
    /// part without a tree) is refused with `EditPlanInvalid` and changes nothing.
    pub fn commit_plan(&mut self, plan: MutationPlan) -> (r: Result<MutationResult, Error>)
        requires
            old(self).wf(),
        ensures
            final(self).spec_pkg().wf(),
            final(self).spec_pkg().main == old(self).spec_pkg().main,
            final(self).spec_pkg().parts@.len() == old(self).spec_pkg().parts@.len(),
            forall|j: int| 0 <= j < old(self).spec_pkg().parts@.len() && j != plan.part.0 ==> #[trigger] final(self).spec_pkg().parts@[j]
                == old(self).spec_pkg().parts@[j],
            old(self).spec_pkg().has(plan.part) ==> final(self).spec_pkg().at(plan.part).content_type
                == old(self).spec_pkg().at(plan.part).content_type
                && final(self).spec_pkg().at(plan.part).rels == old(self).spec_pkg().at(plan.part).rels
                && final(self).spec_pkg().at(plan.part).rels_part == old(self).spec_pkg().at(plan.part).rels_part
                && final(self).spec_pkg().at(plan.part).uri == old(self).spec_pkg().at(plan.part).uri
                && final(self).spec_pkg().at(plan.part).bytes == old(self).spec_pkg().at(plan.part).bytes
                && final(self).spec_pkg().at(plan.part).deleted == old(self).spec_pkg().at(plan.part).deleted,
            final(self).spec_media() == old(self).spec_media(),
            !(old(self).spec_pkg().has(plan.part) && (old(self).spec_pkg().at(plan.part).dom matches Some(d)
                && crate::edit::plan_valid(d, plan.node_edits@))) ==> (r matches Err(e) && e.has_code(DiagCode::EditPlanInvalid)
                && final(self).spec_pkg().parts@ == old(self).spec_pkg().parts@ && final(self).spec_diags() == old(self).spec_diags()
                && final(self).spec_doc() == old(self).spec_doc()),
            old(self).spec_pkg().has(plan.part) && (old(self).spec_pkg().at(plan.part).dom matches Some(d)
                && crate::edit::plan_valid(d, plan.node_edits@)) ==> ((r is Ok <==> crate::document::projectable(final(self).spec_pkg()))
                && (r is Ok || (r matches Err(e) && e.has_code(DiagCode::EditUnsupported)))),
            r matches Ok(res) ==> final(self).wf() && res.created@.len() == plan.node_edits@.len()
                && (forall|k: int| 0 <= k < res.created@.len() ==> (#[trigger] res.created@[k] matches Some(n)
                    ==> final(self).spec_pkg().at(final(self).spec_pkg().main).dom matches Some(dm)
                    && (plan.part == final(self).spec_pkg().main ==> dm.has(n))))
                && res.affected_blocks@ == plan.affected_blocks@ && res.structure_changed == plan.structure_changed
                && res.diagnostics@ == plan.diagnostics@
                && final(self).spec_diags() == old(self).spec_diags() + plan.diagnostics@
                && (old(self).spec_pkg().at(plan.part).dom matches Some(d0) && final(self).spec_pkg().at(plan.part).dom matches Some(d1)
                    && crate::edit::grew(d0, d1)
                    && crate::edit::applied(d0, plan.node_edits@, res.created@, d1)
                    && (crate::edit::new_parents_are_elements(d0, plan.node_edits@) && d1.nodes@.len() + 2 < u32::MAX
                        ==> forall|k: int| 0 <= k < res.created@.len() ==> (#[trigger] res.created@[k] is Some
                        <==> plan.node_edits@[k].spec_creates()))),
    {
        let result = self.pkg.commit_plan(plan)?;
        let ghost p1 = self.pkg;
        let mut i: usize = 0;
        while i < result.diagnostics.len()
            invariant
                self.pkg == p1,
                self.media == old(self).media,
                p1.wf(),
                i <= result.diagnostics@.len(),
                self.diagnostics@ == old(self).diagnostics@ + result.diagnostics@.take(i as int),
            decreases result.diagnostics@.len() - i,
        {
            self.diagnostics.push(result.diagnostics[i].duplicate());
            assert(result.diagnostics@.take(i + 1) =~= result.diagnostics@.take(i as int).push(result.diagnostics@[i as int]));
            assert(self.diagnostics@ =~= old(self).diagnostics@ + result.diagnostics@.take(i + 1));
            i = i + 1;
        }
        assert(result.diagnostics@.take(result.diagnostics@.len() as int) =~= result.diagnostics@);
        self.rebuild()?;
        Ok(result)
    }

    /// Replaces a whole XML part with `xml`: `EditTargetMissing` for a part that is not in the
    /// package, `EditTargetOpaque` for a binary part, `XmlNotWellFormed` when `xml` does not
    /// parse; then the projection is rebuilt.
    pub fn replace_part_xml(&mut self, part: PartId, xml: &str) -> (r: Result<(), Error>)
        requires
            old(self).wf(),
        ensures
            part_xml_done(*old(self), *final(self), part, xml@, r),
    {
        if (part.0 as usize) >= self.pkg.parts.len() {
            let mut msg = text("part#");
            msg.append(&decimal(part.0 as u64));
            msg.append(" 不在包里");
            return Err(Error::edit(DiagCode::EditTargetMissing, msg));
        }
        if !self.pkg.part(part).is_xml {
            let mut msg = self.pkg.part(part).uri.clone();
            msg.append(" 不是 XML part，不能按 XML 替换");
            return Err(Error::edit(DiagCode::EditTargetOpaque, msg));
        }
        self.pkg.replace_part_xml(part, xml)?;
        self.rebuild()
    }

    /// Replaces a whole part with bytes: `EditTargetMissing` for a part that is not in the
    /// package, `EditUnsupported` for the main part; then the projection is rebuilt.
    pub fn replace_part_bytes(&mut self, part: PartId, bytes: Vec<u8>) -> (r: Result<(), Error>)
        requires
            old(self).wf(),
        ensures
            part_bytes_done(*old(self), *final(self), part, bytes@, r),
    {
        if (part.0 as usize) >= self.pkg.parts.len() {
            let mut msg = text("part#");
            msg.append(&decimal(part.0 as u64));
            msg.append(" 不在包里");
            return Err(Error::edit(DiagCode::EditTargetMissing, msg));
        }
        if part == self.pkg.main_part() {
            return Err(Error::edit(DiagCode::EditUnsupported, text("主 part 不能按二进制替换")));
        }
        self.pkg.replace_part_bytes(part, bytes);
        self.rebuild()
    }
}


/// The numeric suffix of an id of the form `rId<digits>` (at most nine digits).
pub open spec fn rid_number(id: Seq<char>) -> Option<nat> {
    if id.len() > 3 && id.len() <= 12 && id[0] == 'r' && id[1] == 'I' && id[2] == 'd' && forall|i: int|
        3 <= i < id.len() ==> '0' <= #[trigger] id[i] && id[i] <= '9' {
        Some(digits_value(id.skip(3)))
    } else {
        None
    }
}

pub open spec fn digits_value(ds: Seq<char>) -> nat
    decreases ds.len(),
{
    if ds.len() == 0 {
        0
    } else {
        digits_value(ds.drop_last()) * 10 + ((ds.last() as u32) - ('0' as u32)) as nat
    }
}

/// One more than the largest `rId` number among `rels` (1 when there is none).
pub open spec fn next_rid_number(rels: Seq<Relationship>) -> nat
    decreases rels.len(),
{
    if rels.len() == 0 {
        1
    } else {
        let prev = next_rid_number(rels.drop_last());
        match rid_number(rels.last().id@) {
            Some(v) => if v + 1 > prev {
                v + 1
            } else {
                prev
            },
            None => prev,
        }
    }
}

fn rid_value(id: &String) -> (r: Option<u64>)
    ensures
        match rid_number(id@) {
            Some(v) => r == Some(v as u64),
            None => r is None,
        },
{
    let cs = crate::chars::chars_of(id.as_str());
    if cs.len() <= 3 || cs.len() > 12 || cs[0] != 'r' || cs[1] != 'I' || cs[2] != 'd' {
        return None;
    }
    let mut v: u64 = 0;
    let mut i: usize = 3;
    proof {
        assert(cs@.skip(3).take(0) =~= Seq::<char>::empty());
    }
    while i < cs.len()
        invariant
            cs@ == id@,
            3 <= i <= cs@.len(),
            cs@.len() <= 12,
            forall|j: int| 3 <= j < i ==> '0' <= #[trigger] cs@[j] && cs@[j] <= '9',
            v == digits_value(cs@.skip(3).take(i - 3)),
            v < pow10(i - 3),
        decreases cs@.len() - i,
    {
        let c = cs[i];
        if !('0' <= c && c <= '9') {
            return None;
        }
        proof {
            assert(cs@.skip(3).take(i + 1 - 3).drop_last() =~= cs@.skip(3).take(i - 3));
            assert(cs@.skip(3).take(i + 1 - 3).last() == c);
            assert(pow10(i + 1 - 3) == pow10(i - 3) * 10);
            assert(pow10(i - 3) <= 1_000_000_000) by {
                lemma_pow10_le(i - 3, 9);
                lemma_pow10_9();
            }
        }
        v = v * 10 + ((c as u32) - ('0' as u32)) as u64;
        i = i + 1;
    }
    proof {
        assert(cs@.skip(3).take(cs@.len() - 3) =~= cs@.skip(3));
    }
    Some(v)
}

pub open spec fn pow10(n: int) -> nat
    decreases n,
{
    if n <= 0 {
        1
    } else {
        pow10(n - 1) * 10
    }
}

pub proof fn lemma_pow10_9()
    ensures
        pow10(9) == 1_000_000_000,
{
    assert(pow10(0) == 1);
    assert(pow10(1) == 10);
    assert(pow10(2) == 100);
    assert(pow10(3) == 1000);
    assert(pow10(4) == 10000);
    assert(pow10(5) == 100000);
    assert(pow10(6) == 1000000);
    assert(pow10(7) == 10000000);
    assert(pow10(8) == 100000000);
    assert(pow10(9) == 1000000000);
}

pub proof fn lemma_pow10_le(a: int, b: int)
    requires
        0 <= a <= b,
    ensures
        pow10(a) <= pow10(b),
    decreases b - a,
{
    if a < b {
        lemma_pow10_le(a, b - 1);
    }
}

proof fn lemma_digit_char(d: nat)
    requires
        d < 10,
    ensures
        '0' <= crate::text::digit_char(d) <= '9',
        ((crate::text::digit_char(d) as u32) - ('0' as u32)) as nat == d,
{
    if d == 0 {
    } else if d == 1 {
    } else if d == 2 {
    } else if d == 3 {
    } else if d == 4 {
    } else if d == 5 {
    } else if d == 6 {
    } else if d == 7 {
    } else if d == 8 {
    } else {
    }
}

/// A decimal is made of digits, reads back as its value, and has at most `k` digits when
/// the value is below 10^k.
proof fn lemma_decimal_digits(n: nat, k: int)
    ensures
        forall|i: int| 0 <= i < crate::text::spec_decimal(n).len() ==> '0' <= #[trigger] crate::text::spec_decimal(n)[i]
            && crate::text::spec_decimal(n)[i] <= '9',
        digits_value(crate::text::spec_decimal(n)) == n,
        1 <= k && n < pow10(k) ==> crate::text::spec_decimal(n).len() <= k,
        crate::text::spec_decimal(n).len() >= 1,
    decreases n,
{
    let d = crate::text::spec_decimal(n);
    lemma_digit_char(n % 10);
    if n < 10 {
        assert(d.drop_last() =~= Seq::<char>::empty());
        assert(digits_value(d.drop_last()) == 0);
        assert(d.last() == crate::text::digit_char(n));
        assert(n % 10 == n);
        assert(digits_value(d) == n);
    } else {
        lemma_decimal_digits(n / 10, k - 1);
        assert(d.drop_last() =~= crate::text::spec_decimal(n / 10));
        assert(d.last() == crate::text::digit_char(n % 10));
        assert(n == (n / 10) * 10 + n % 10) by (nonlinear_arith);
        assert(digits_value(d) == n);
        if 1 <= k && n < pow10(k) {
            if k == 1 {
                assert(pow10(1) == 10) by {
                    assert(pow10(0) == 1);
                }
            } else {
                assert(pow10(k) == pow10(k - 1) * 10);
            }
        }
    }
}

/// Every `rId` number in use is below `next_rid_number`.
proof fn lemma_next_rid_above(rels: Seq<Relationship>)
    ensures
        next_rid_number(rels) >= 1,
        forall|k: int| 0 <= k < rels.len() ==> (rid_number(#[trigger] rels[k].id@) matches Some(v) ==> v < next_rid_number(rels)),
    decreases rels.len(),
{
    if rels.len() > 0 {
        lemma_next_rid_above(rels.drop_last());
        assert forall|k: int| 0 <= k < rels.len() implies (rid_number(#[trigger] rels[k].id@) matches Some(v) ==> v < next_rid_number(rels)) by {
            if k < rels.len() - 1 {
                assert(rels[k] == rels.drop_last()[k]);
            }
        }
    }
}

/// The id `next_rel_id` makes differs from every id in use, as long as its number has at
/// most nine digits.
pub proof fn lemma_next_rel_id_fresh(rels: Seq<Relationship>)
    requires
        next_rid_number(rels) < 1_000_000_000,
    ensures
        forall|k: int| 0 <= k < rels.len() ==> (#[trigger] rels[k].id@) != "rId"@ + crate::text::spec_decimal(next_rid_number(rels)),
{
    let n = next_rid_number(rels);
    let id = "rId"@ + crate::text::spec_decimal(n);
    lemma_pow10_9();
    lemma_decimal_digits(n, 9);
    lemma_next_rid_above(rels);
    reveal_strlit("rId");
    assert(id.skip(3) =~= crate::text::spec_decimal(n));
    assert forall|i: int| 3 <= i < id.len() implies '0' <= #[trigger] id[i] && id[i] <= '9' by {
        assert(id[i] == crate::text::spec_decimal(n)[i - 3]);
    }
    assert(rid_number(id) == Some(n));
    assert forall|k: int| 0 <= k < rels.len() implies (#[trigger] rels[k].id@) != id by {
        if rels[k].id@ == id {
            assert(rid_number(rels[k].id@) == Some(n));
        }
    }
}

/// The root of `d` has a child element named `local` with the (name, value) attributes
/// `attrs`.
pub open spec fn root_child_with(d: Dom, local: LocalName, attrs: Seq<(QName, Seq<char>)>) -> bool {
    exists|n: NodeId| #![trigger d.at(n)] d.has(n) && d.at(n).parent == Some(d.root) && d.kids(d.root).contains(n)
        && (d.at(n).kind matches crate::dom::NodeKind::Element(el) && el.name.local == local
        && crate::edit::attr_pairs(el.attrs@) == attrs)
}

/// The last child of the root of `d` is an element with local name `local` and attributes
/// `attrs`.
pub open spec fn root_last_child_with(d: Dom, local: LocalName, attrs: Seq<(QName, Seq<char>)>) -> bool {
    d.kids(d.root).len() > 0 && {
        let n = d.kids(d.root).last();
        &&& d.has(n) && d.at(n).parent == Some(d.root)
        &&& d.at(n).kind matches crate::dom::NodeKind::Element(el) && el.name.local == local
            && crate::edit::attr_pairs(el.attrs@) == attrs
    }
}

/// There is no content types part, or its tree has a live root element to add to.
pub open spec fn content_types_open(pkg: Package) -> bool {
    match pkg.content_types {
        None => true,
        Some(ct) => pkg.at(ct).dom matches Some(d) && d.live(d.root) && d.is_element(d.root),
    }
}

/// The entry name of the `.rels` part of entry `uri`: `<dir>/_rels/<name>.rels`.
pub open spec fn rels_path(uri: Seq<char>) -> Seq<char> {
    let d = crate::paths::dir_of(uri);
    if d.len() == 0 {
        "_rels/"@ + crate::paths::file_name_of(uri) + ".rels"@
    } else {
        d + "/_rels/"@ + crate::paths::file_name_of(uri) + ".rels"@
    }
}

/// `p` is a new `.rels` part of `part` in `pkg`: the next part, named after `part`, with the
/// relationships content type, and `rels` has a `Default` content type.
pub open spec fn new_rels_part(old_pkg: Package, pkg: Package, part: PartId, p: PartId) -> bool {
    &&& p.0 as int == old_pkg.parts@.len()
    &&& pkg.at(p).uri@ == rels_path(old_pkg.at(part).uri@)
    &&& pkg.at(p).content_type@ == CT_RELS@
    &&& pkg.at(p).dom is Some
    &&& default_recorded(pkg, "rels"@)
}

/// `d` is the tree of a new `.rels` part: a lone `Relationships` element without attributes.
pub open spec fn empty_rels_tree(d: Dom) -> bool {
    &&& d.live(d.root) && d.is_element(d.root) && d.nodes@.len() == 1
    &&& d.at(d.root).kind matches crate::dom::NodeKind::Element(e)
        && e.name == (QName { ns: NsId::PackageRels, local: LocalName::Relationships }) && e.attrs@.len() == 0
}

/// What `ensure_rels_part` promises about reuse: an existing `.rels` part is handed back and
/// nothing changes; a part handed back is the `.rels` part of `part` afterwards.
pub open spec fn rels_part_done(s0: EditSession, s1: EditSession, part: PartId, r: Result<PartId, Error>) -> bool {
    &&& s0.spec_pkg().at(part).rels_part matches Some(p) ==> r == Ok::<PartId, Error>(p) && s1.spec_pkg() == s0.spec_pkg()
    &&& r matches Ok(p) ==> s1.spec_pkg().at(part).rels_part == Some(p) && s1.spec_pkg().has(p)
}

/// A relationship of `kind` can be added to `part`: its type has a URI for the part's
/// flavor and the part has a `.rels` whose tree has a live root element.
pub open spec fn rel_addable(pkg: Package, part: PartId, kind: RelType) -> bool {
    &&& rel_type_uri(kind, pkg.at(part).flavor) is Some
    &&& pkg.at(part).rels_part matches Some(rp) && pkg.has(rp)
        && (pkg.at(rp).dom matches Some(d) && d.live(d.root) && d.is_element(d.root))
}

/// A new part `uri` related from `owner` by `kind` can be had: no part has that entry name, a
/// relationship can be added to `owner` ([`rel_addable`]) in a `.rels` that is not the
/// content types part, and content types can be recorded ([`content_types_open`]).
pub open spec fn part_addable(pkg: Package, owner: PartId, kind: RelType, uri: Seq<char>) -> bool {
    &&& crate::package::find_from(pkg.parts@, uri, 0) is None
    &&& rel_addable(pkg, owner, kind)
    &&& content_types_open(pkg)
    &&& pkg.at(owner).rels_part != pkg.content_types
}

/// The `.rels` tree of `part` is below the size limit of node ids.
pub open spec fn rels_room(pkg: Package, part: PartId) -> bool {
    pkg.at(part).rels_part matches Some(rp) && (pkg.at(rp).dom matches Some(d) && d.nodes@.len() + 2 < u32::MAX)
}

/// The attributes of a new `Relationship` element: `Id`, `Type`, `Target`, and
/// `TargetMode="External"` for an external target.
pub open spec fn rel_attrs(id: Seq<char>, raw_type: Seq<char>, target: Seq<char>, external: bool) -> Seq<(QName, Seq<char>)> {
    let base = seq![
        (QName { ns: NsId::NoNamespace, local: LocalName::UId }, id),
        (QName { ns: NsId::NoNamespace, local: LocalName::UType }, raw_type),
        (QName { ns: NsId::NoNamespace, local: LocalName::Target }, target),
    ];
    if external {
        base.push((QName { ns: NsId::NoNamespace, local: LocalName::TargetMode }, "External"@))
    } else {
        base
    }
}

/// The `.rels` tree of `part` in `pkg` holds the relationship element of `rel`: a child of
/// its root, named `Relationship`, with the attributes of `rel`, `target` and `external`.
pub open spec fn rel_element_in(pkg: Package, part: PartId, rel: Relationship, target: Seq<char>, external: bool) -> bool {
    match pkg.at(part).rels_part {
        Some(rp) => pkg.has(rp) && match pkg.at(rp).dom {
            Some(d) => {
                &&& d.has(rel.node)
                &&& d.at(rel.node).parent == Some(d.root)
                &&& d.kids(d.root).contains(rel.node)
                &&& d.at(rel.node).kind matches crate::dom::NodeKind::Element(el) && el.name.local == LocalName::Relationship
                    && crate::edit::attr_pairs(el.attrs@) == rel_attrs(rel.id@, rel.raw_type@, target, external)
            },
            None => false,
        },
        None => false,
    }
}

/// The next free relationship id: `rId` and one more than the largest `rId` number in use.
fn next_rel_id(rels: &Vec<Relationship>) -> (r: String)
    ensures
        r@ == "rId"@ + crate::text::spec_decimal(next_rid_number(rels@)),
{
    let mut next: u64 = 1;
    proof {
        assert(rels@.take(0) =~= Seq::<Relationship>::empty());
    }
    // every `rId` number read is below 10^9, so `next` stays small
    for k in 0..rels.len()
        invariant
            next == next_rid_number(rels@.take(k as int)),
            next <= 1_000_000_001,
    {
        proof {
            assert(rels@.take(k + 1).drop_last() =~= rels@.take(k as int));
            assert(rels@.take(k + 1).last() == rels@[k as int]);
        }
        if let Some(v) = rid_value(&rels[k].id) {
            proof {
                lemma_rid_small(rels@[k as int].id@);
            }
            if v + 1 > next {
                next = v + 1;
            }
        }
    }
    proof {
        assert(rels@.take(rels@.len() as int) =~= rels@);
    }
    concat("rId", decimal(next).as_str())
}

proof fn lemma_rid_small(id: Seq<char>)
    requires
        rid_number(id) is Some,
    ensures
        rid_number(id)->Some_0 < 1_000_000_000,
{
    let ds = id.skip(3);
    assert forall|i: int| 0 <= i < ds.len() implies '0' <= #[trigger] ds[i] && ds[i] <= '9' by {
        assert(ds[i] == id[i + 3]);
    }
    lemma_digits_bound(ds);
    lemma_pow10_le(ds.len() as int, 9);
    lemma_pow10_9();
}

proof fn lemma_digits_bound(ds: Seq<char>)
    requires
        forall|i: int| 0 <= i < ds.len() ==> '0' <= #[trigger] ds[i] && ds[i] <= '9',
    ensures
        digits_value(ds) < pow10(ds.len() as int),
    decreases ds.len(),
{
    if ds.len() > 0 {
        assert forall|i: int| 0 <= i < ds.drop_last().len() implies '0' <= #[trigger] ds.drop_last()[i] && ds.drop_last()[i] <= '9' by {
            assert(ds.drop_last()[i] == ds[i]);
        }
        lemma_digits_bound(ds.drop_last());
        assert(ds.last() == ds[ds.len() - 1]);
    }
}

/// The name of the first child of `n` with local name `local`, or that local name in the
/// namespace of `n`.
fn child_name_like(dom: &Dom, n: NodeId, local: LocalName) -> (r: QName)
    requires
        dom.wf(),
        dom.has(n),
    ensures
        r.local == local,
{
    let kids = dom.children(n);
    for i in 0..kids.len() {
        if let Some(q) = dom.name(kids[i]) {
            if q.local == local {
                return q;
            }
        }
    }
    let ns = match dom.name(n) {
        Some(q) => q.ns,
        None => NsId::NoNamespace,
    };
    QName::new(ns, local)
}

impl EditSession {
    /// Validates and commits a plan on the package alone, recording its diagnostics; the
    /// projection is left as it is.
    fn commit_raw(&mut self, plan: MutationPlan) -> (r: Result<MutationResult, Error>)
        requires
            old(self).spec_pkg().wf(),
        ensures
            final(self).spec_media() == old(self).spec_media(),
            final(self).spec_pkg().wf(),
            final(self).spec_pkg().main == old(self).spec_pkg().main,
            final(self).spec_pkg().parts@.len() == old(self).spec_pkg().parts@.len(),
            final(self).spec_pkg().content_types == old(self).spec_pkg().content_types,
            forall|j: int| 0 <= j < old(self).spec_pkg().parts@.len() && j != plan.part.0 ==> #[trigger] final(self).spec_pkg().parts@[j]
                == old(self).spec_pkg().parts@[j],
            old(self).spec_pkg().has(plan.part) ==> final(self).spec_pkg().at(plan.part).rels == old(self).spec_pkg().at(plan.part).rels
                && final(self).spec_pkg().at(plan.part).rels_part == old(self).spec_pkg().at(plan.part).rels_part
                && final(self).spec_pkg().at(plan.part).uri == old(self).spec_pkg().at(plan.part).uri
                && fields_kept(old(self).spec_pkg().at(plan.part), final(self).spec_pkg().at(plan.part)),
            final(self).spec_pkg().defaults == old(self).spec_pkg().defaults,
            final(self).spec_pkg().overrides == old(self).spec_pkg().overrides,
            r matches Ok(res) ==> res.created@.len() == plan.node_edits@.len() && final(self).spec_diags()
                == old(self).spec_diags() + plan.diagnostics@
                && (old(self).spec_pkg().at(plan.part).dom matches Some(d0) && final(self).spec_pkg().at(plan.part).dom matches Some(d1)
                    && crate::edit::applied(d0, plan.node_edits@, res.created@, d1)
                    && (crate::edit::new_parents_are_elements(d0, plan.node_edits@) && d1.nodes@.len() + 2 < u32::MAX
                        ==> forall|k: int| 0 <= k < res.created@.len() ==> (#[trigger] res.created@[k] is Some
                        <==> plan.node_edits@[k].spec_creates()))),
            r is Err ==> final(self).spec_diags() == old(self).spec_diags(),
            r is Ok <==> old(self).spec_pkg().has(plan.part) && (old(self).spec_pkg().at(plan.part).dom matches Some(d)
                && crate::edit::plan_valid(d, plan.node_edits@)),
            r matches Err(e) ==> e.has_code(DiagCode::EditPlanInvalid),
    {
        let result = self.pkg.commit_plan(plan)?;
        let ghost p1 = self.pkg;
        let mut i: usize = 0;
        while i < result.diagnostics.len()
            invariant
                self.pkg == p1,
                self.media == old(self).media,
                i <= result.diagnostics@.len(),
                self.diagnostics@ == old(self).diagnostics@ + result.diagnostics@.take(i as int),
            decreases result.diagnostics@.len() - i,
        {
            self.diagnostics.push(result.diagnostics[i].duplicate());
            assert(result.diagnostics@.take(i + 1) =~= result.diagnostics@.take(i as int).push(result.diagnostics@[i as int]));
            i = i + 1;
        }
        assert(result.diagnostics@.take(result.diagnostics@.len() as int) =~= result.diagnostics@);
        Ok(result)
    }
}


/// Relationship lists, entry names and flavors of the parts of `a` are unchanged in `b`, and
/// parts were only appended.
pub open spec fn parts_stable(a: Package, b: Package) -> bool {
    &&& a.parts@.len() <= b.parts@.len()
    &&& b.main == a.main
    &&& b.content_types == a.content_types
    &&& forall|j: int| 0 <= j < a.parts@.len() ==> (#[trigger] b.parts@[j]).rels == a.parts@[j].rels
        && fields_kept(a.parts@[j], b.parts@[j])
}

/// A part's entry name, content type, bytes, flavor and deletion mark are the same, and it
/// has a tree in both or in neither.
pub open spec fn fields_kept(a: crate::package::Part, b: crate::package::Part) -> bool {
    &&& b.uri == a.uri
    &&& b.content_type == a.content_type
    &&& b.bytes == a.bytes
    &&& b.flavor == a.flavor
    &&& b.deleted == a.deleted
    &&& (b.dom is Some <==> a.dom is Some)
}

/// `[Content_Types].xml` content type of `.rels` parts, and related constants.
pub const CT_COMMENTS: &'static str = "application/vnd.openxmlformats-officedocument.wordprocessingml.comments+xml";
pub const CT_SETTINGS: &'static str = "application/vnd.openxmlformats-officedocument.wordprocessingml.settings+xml";
pub const CT_FOOTNOTES: &'static str = "application/vnd.openxmlformats-officedocument.wordprocessingml.footnotes+xml";
pub const CT_ENDNOTES: &'static str = "application/vnd.openxmlformats-officedocument.wordprocessingml.endnotes+xml";
pub const CT_HEADER: &'static str = "application/vnd.openxmlformats-officedocument.wordprocessingml.header+xml";
pub const CT_FOOTER: &'static str = "application/vnd.openxmlformats-officedocument.wordprocessingml.footer+xml";
pub const CT_COMMENTS_EXTENDED: &'static str = "application/vnd.openxmlformats-officedocument.wordprocessingml.commentsExtended+xml";

/// The WordprocessingML namespace of a flavor.
fn w_namespace(flavor: PartFlavor) -> (r: &'static str)
    ensures
        r@ == crate::sections::w_ns_text(flavor),
{
    match flavor {
        PartFlavor::Transitional => "http://schemas.openxmlformats.org/wordprocessingml/2006/main",
        PartFlavor::Strict => "http://purl.oclc.org/ooxml/wordprocessingml/main",
    }
}

/// The text of an empty `w:` root element `<w:local xmlns:w="..."/>` with the XML
/// declaration.
pub open spec fn empty_root_text(flavor: PartFlavor, local: Seq<char>) -> Seq<char> {
    "<?xml version=\"1.0\" encoding=\"UTF-8\" standalone=\"yes\"?><w:"@ + local + " xmlns:w=\""@
        + crate::sections::w_ns_text(flavor) + "\"/>"@
}

/// The text of a new footnotes (`endnote == false`) or endnotes part: the separator entry
/// (`w:id="-1"`) and the continuation separator entry (`w:id="0"`).
pub open spec fn notes_text(flavor: PartFlavor, endnote: bool) -> Seq<char> {
    let root = if endnote { "endnotes"@ } else { "footnotes"@ };
    let entry = if endnote { "endnote"@ } else { "footnote"@ };
    "<?xml version=\"1.0\" encoding=\"UTF-8\" standalone=\"yes\"?><w:"@ + root + " xmlns:w=\""@
        + crate::sections::w_ns_text(flavor) + "\"><w:"@ + entry
        + " w:type=\"separator\" w:id=\"-1\"><w:p><w:r><w:separator/></w:r></w:p></w:"@ + entry + "><w:"@ + entry
        + " w:type=\"continuationSeparator\" w:id=\"0\"><w:p><w:r><w:continuationSeparator/></w:r></w:p></w:"@ + entry
        + "></w:"@ + root + ">"@
}

/// The text of a new `commentsExtended` part: an empty `w15:commentsEx`.
pub open spec fn comments_ex_text() -> Seq<char> {
    "<?xml version=\"1.0\" encoding=\"UTF-8\" standalone=\"yes\"?><w15:commentsEx xmlns:w15=\"http://schemas.microsoft.com/office/word/2012/wordml\"/>"@
}

/// An empty `w:` root element `<w:local xmlns:w="..."/>` with the XML declaration.
fn empty_root_xml(flavor: PartFlavor, local: &str) -> (r: String)
    ensures
        r@ == empty_root_text(flavor, local@),
{
    let mut x = text("<?xml version=\"1.0\" encoding=\"UTF-8\" standalone=\"yes\"?><w:");
    x.append(local);
    x.append(" xmlns:w=\"");
    x.append(w_namespace(flavor));
    x.append("\"/>");
    x
}

/// `c` is a `Default` element of the content types whose extension is `ext` (ASCII case
/// ignored).
pub open spec fn declares_default(dom: Dom, c: NodeId, ext: Seq<char>) -> bool {
    (dom.name_of(c) matches Some(q) && q.local == LocalName::UDefault)
        && (dom.spec_attr(c, QName { ns: NsId::NoNamespace, local: LocalName::UExtension }) matches Some(v)
        && crate::paths::eq_ascii_ci(v, ext))
}

/// The package records a `Default` content type for `ext` (ASCII case ignored).
pub open spec fn default_recorded(pkg: Package, ext: Seq<char>) -> bool {
    pkg.content_types is None || exists|i: int| 0 <= i < pkg.defaults@.len() && crate::paths::eq_ascii_ci(#[trigger] pkg.defaults@[i].0@, ext)
}

/// The content types tree declares a `Default` for `ext` (ASCII case ignored).
pub open spec fn default_declared(pkg: Package, ext: Seq<char>) -> bool {
    match pkg.content_types {
        Some(ct) => match pkg.at(ct).dom {
            Some(d) => exists|j: int| 0 <= j < d.spec_live_element_children(d.root).len()
                && declares_default(d, #[trigger] d.spec_live_element_children(d.root)[j], ext),
            None => false,
        },
        None => false,
    }
}

/// The content types tree of `pkg` has a `Default` element for `ext` with `content_type`
/// under its root (as long as the tree is below the size limit).
pub open spec fn default_inserted(pkg: Package, ext: Seq<char>, content_type: Seq<char>) -> bool {
    match pkg.content_types {
        Some(ct) => match pkg.at(ct).dom {
            Some(d1) => d1.nodes@.len() + 2 < u32::MAX ==> root_child_with(d1, LocalName::UDefault, seq![
                (QName { ns: NsId::NoNamespace, local: LocalName::UExtension }, ext),
                (QName { ns: NsId::NoNamespace, local: LocalName::ContentType }, content_type),
            ]),
            None => false,
        },
        None => true,
    }
}

/// A `Default` for `ext` can be had: there is no content types part, one is already
/// recorded or declared, or the content types tree has a live root element to add it to.
pub open spec fn default_addable(pkg: Package, ext: Seq<char>) -> bool {
    match pkg.content_types {
        None => true,
        Some(ct) => (exists|i: int| 0 <= i < pkg.defaults@.len() && crate::paths::eq_ascii_ci(#[trigger] pkg.defaults@[i].0@, ext))
            || (pkg.at(ct).dom matches Some(d) && ((exists|j: int| 0 <= j < d.spec_live_element_children(d.root).len()
                && declares_default(d, #[trigger] d.spec_live_element_children(d.root)[j], ext))
                || (d.live(d.root) && d.is_element(d.root)))),
    }
}

impl EditSession {
    /// Adds a `Default` content type for `ext` unless one is declared (ASCII case ignored);
    /// nothing when the package has no content types part.
    fn default_type_raw(&mut self, ext: &str, content_type: &str) -> (r: Result<(), Error>)
        requires
            old(self).spec_pkg().wf(),
        ensures
            final(self).spec_media() == old(self).spec_media(),
            final(self).spec_pkg().wf(),
            parts_stable(old(self).spec_pkg(), final(self).spec_pkg()),
            final(self).spec_pkg().parts@.len() == old(self).spec_pkg().parts@.len(),
            final(self).spec_pkg().overrides == old(self).spec_pkg().overrides,
            forall|j: int| 0 <= j < old(self).spec_pkg().parts@.len() ==> (#[trigger] final(self).spec_pkg().parts@[j]).rels_part
                == old(self).spec_pkg().parts@[j].rels_part,
            r is Ok && old(self).spec_pkg().content_types is Some ==> exists|i: int| 0 <= i < final(self).spec_pkg().defaults@.len()
                && crate::paths::eq_ascii_ci(#[trigger] final(self).spec_pkg().defaults@[i].0@, ext@),
            r is Ok <==> default_addable(old(self).spec_pkg(), ext@),
            r matches Err(e) ==> e.has_code(DiagCode::EditPlanInvalid),
            default_recorded(old(self).spec_pkg(), ext@) ==> final(self).spec_pkg() == old(self).spec_pkg()
                && final(self).spec_diags() == old(self).spec_diags(),
            default_declared(old(self).spec_pkg(), ext@) ==> final(self).spec_pkg().parts == old(self).spec_pkg().parts,
            r is Ok && !default_recorded(old(self).spec_pkg(), ext@) && !default_declared(old(self).spec_pkg(), ext@)
                ==> default_inserted(final(self).spec_pkg(), ext@, content_type@),
            forall|j: int| 0 <= j < old(self).spec_pkg().parts@.len() && Some(PartId(j as u32)) != old(self).spec_pkg().content_types
                ==> #[trigger] final(self).spec_pkg().parts@[j] == old(self).spec_pkg().parts@[j],
    {
        let ct_part = match self.pkg.content_types_part() {
            Some(p) => p,
            None => {
                return Ok(());
            },
        };
        if self.pkg.default_for_extension(ext).is_some() {
            return Ok(());
        }
        let dom = match self.pkg.dom(ct_part) {
            Some(d) => d,
            None => {
                return Err(Error::edit(DiagCode::EditPlanInvalid, text("内容类型不是 XML part")));
            },
        };
        proof {
            assert(self.pkg.parts@[ct_part.0 as int].dom matches Some(d) ==> d.wf());
        }
        let root = dom.root();
        let kids = dom.live_element_children(root);
        let mut already = false;
        for i in 0..kids.len()
            invariant
                kids@ == dom.spec_live_element_children(root),
                already <==> exists|j: int| 0 <= j < i && declares_default(*dom, #[trigger] kids@[j], ext@),
        {
            let c = kids[i];
            if let Some(q) = dom.name(c) {
                if q.local == LocalName::UDefault {
                    if let Some(v) = dom.attr(c, QName::new(NsId::NoNamespace, LocalName::UExtension)) {
                        if crate::paths::eq_ignore_ascii_case(v.as_str(), ext) {
                            already = true;
                        }
                    }
                }
            }
        }
        if already {
            self.pkg.add_default(ext, content_type);
            proof {
                let i = self.pkg.defaults@.len() - 1;
                assert(crate::paths::eq_ascii_ci(self.pkg.defaults@[i].0@, ext@));
            }
            return Ok(());
        }
        let name = child_name_like(dom, root, LocalName::UDefault);
        let raw = dom.children(root);
        let first = if raw.len() > 0 {
            Some(raw[0])
        } else {
            None
        };
        let node = NewElement::new(name).with_attr(QName::new(NsId::NoNamespace, LocalName::UExtension), ext.to_string()).with_attr(
            QName::new(NsId::NoNamespace, LocalName::ContentType),
            content_type.to_string(),
        );
        let ghost enode = node;
        assert(crate::edit::new_attrs(node.attrs@) =~= seq![
            (QName { ns: NsId::NoNamespace, local: LocalName::UExtension }, ext@),
            (QName { ns: NsId::NoNamespace, local: LocalName::ContentType }, content_type@),
        ]);
        let mut plan = MutationPlan::new(ct_part);
        plan.node_edits.push(NodeEdit::Insert { parent: Target::Node(root), before: first, node });
        let ghost es = plan.node_edits@;
        let ghost d0 = *dom;
        proof {
            assert(es.len() == 1);
            if first is Some {
                assert(d0.kids(root).contains(first.unwrap())) by {
                    assert(d0.kids(root)[0] == first.unwrap());
                }
            }
            if d0.live(root) && d0.is_element(root) {
                assert forall|i: int| 0 <= i < es.len() implies crate::edit::edit_ok(d0, es, i) by {}
            }
        }
        let res = match self.commit_raw(plan) {
            Ok(res) => res,
            Err(e) => {
                proof {
                    assert(!crate::edit::plan_valid(d0, es));
                    if d0.live(root) && d0.is_element(root) {
                        assert(crate::edit::edit_ok(d0, es, 0));
                    }
                }
                return Err(e);
            },
        };
        proof {
            assert(crate::edit::plan_valid(d0, es));
            assert(crate::edit::edit_ok(d0, es, 0));
            let d1 = self.pkg.at(ct_part).dom->0;
            let tr = choose|tr: Seq<Dom>| crate::edit::applied_through(d0, es, res.created@, tr, d1);
            assert(es[0] == NodeEdit::Insert { parent: Target::Node(root), before: first, node: enode });
            assert(tr[0] == d0 && tr[1] == d1);
            if d1.nodes@.len() + 2 < u32::MAX {
                assert(crate::edit::new_parents_are_elements(d0, es));
                assert(res.created@[0] is Some);
                let n = res.created@[0]->0;
                assert(crate::edit::placed(d1, root, n, Some(enode.name)));
                assert(d1.at(n).parent == Some(d1.root));
            }
        }
        self.pkg.add_default(ext, content_type);
        proof {
            let i = self.pkg.defaults@.len() - 1;
            assert(crate::paths::eq_ascii_ci(self.pkg.defaults@[i].0@, ext@));
        }
        Ok(())
    }

    /// `[Content_Types].xml` of the package: a `Default` for `ext` unless one is declared.
    pub fn ensure_default_type(&mut self, ext: &str, content_type: &str) -> (r: Result<(), Error>)
        requires
            old(self).wf(),
        ensures
            final(self).spec_pkg().wf(),
            parts_stable(old(self).spec_pkg(), final(self).spec_pkg()),
            r is Ok ==> final(self).wf(),
            r is Ok && old(self).spec_pkg().content_types is Some ==> exists|i: int| 0 <= i < final(self).spec_pkg().defaults@.len()
                && crate::paths::eq_ascii_ci(#[trigger] final(self).spec_pkg().defaults@[i].0@, ext@),
            r is Ok ==> default_recorded(final(self).spec_pkg(), ext@),
            default_recorded(old(self).spec_pkg(), ext@) ==> r is Ok && final(self).spec_pkg() == old(self).spec_pkg(),
            default_declared(old(self).spec_pkg(), ext@) ==> r is Ok && final(self).spec_pkg().parts == old(self).spec_pkg().parts,
            r is Ok <==> default_addable(old(self).spec_pkg(), ext@) && crate::document::projectable(final(self).spec_pkg()),
            r is Ok && !default_recorded(old(self).spec_pkg(), ext@) && !default_declared(old(self).spec_pkg(), ext@)
                ==> default_inserted(final(self).spec_pkg(), ext@, content_type@),
    {
        self.default_type_raw(ext, content_type)?;
        self.rebuild()
    }

    /// Adds an `Override` content type for entry `uri`; without a content types part only a
    /// diagnostic is recorded.
    fn override_raw(&mut self, uri: &str, content_type: &str) -> (r: Result<(), Error>)
        requires
            old(self).spec_pkg().wf(),
        ensures
            final(self).spec_media() == old(self).spec_media(),
            final(self).spec_pkg().wf(),
            parts_stable(old(self).spec_pkg(), final(self).spec_pkg()),
            final(self).spec_pkg().parts@.len() == old(self).spec_pkg().parts@.len(),
            final(self).spec_pkg().defaults == old(self).spec_pkg().defaults,
            forall|j: int| 0 <= j < old(self).spec_pkg().parts@.len() ==> (#[trigger] final(self).spec_pkg().parts@[j]).rels_part
                == old(self).spec_pkg().parts@[j].rels_part,
            r is Ok && old(self).spec_pkg().content_types is Some ==> final(self).spec_pkg().overrides@.len() > 0
                && final(self).spec_pkg().overrides@.last().0@ == uri@ && final(self).spec_pkg().overrides@.last().1@ == content_type@,
            old(self).spec_pkg().content_types is None ==> r is Ok && final(self).spec_diags().len() == old(self).spec_diags().len() + 1
                && final(self).spec_diags().drop_last() == old(self).spec_diags()
                && final(self).spec_diags().last().code == DiagCode::EditUnsupported
                && final(self).spec_pkg().parts == old(self).spec_pkg().parts
                && final(self).spec_pkg().overrides == old(self).spec_pkg().overrides
                && final(self).spec_pkg().main == old(self).spec_pkg().main,
            content_types_open(old(self).spec_pkg()) ==> r is Ok,
            r is Ok ==> (old(self).spec_pkg().content_types matches Some(ct) ==> (final(self).spec_pkg().at(ct).dom matches Some(d1)
                && (d1.nodes@.len() + 2 < u32::MAX ==> root_last_child_with(d1, LocalName::Override, seq![
                    (QName { ns: NsId::NoNamespace, local: LocalName::PartName }, "/"@ + uri@),
                    (QName { ns: NsId::NoNamespace, local: LocalName::ContentType }, content_type@),
                ])))),
            forall|j: int| 0 <= j < old(self).spec_pkg().parts@.len() && Some(PartId(j as u32)) != old(self).spec_pkg().content_types
                ==> #[trigger] final(self).spec_pkg().parts@[j] == old(self).spec_pkg().parts@[j],
    {
        let ct_part = match self.pkg.content_types_part() {
            Some(p) => p,
            None => {
                let mut msg = text("缺 [Content_Types].xml，");
                msg.append(uri);
                msg.append(" 的内容类型写不进去");
                let d = Diagnostic::invariant_violation(self.pkg.main_part(), None, DiagCode::EditUnsupported, msg);
                self.push_diagnostic(d);
                return Ok(());
            },
        };
        let dom = match self.pkg.dom(ct_part) {
            Some(d) => d,
            None => {
                return Err(Error::edit(DiagCode::EditPlanInvalid, text("内容类型不是 XML part")));
            },
        };
        proof {
            assert(self.pkg.parts@[ct_part.0 as int].dom matches Some(d) ==> d.wf());
        }
        let root = dom.root();
        let name = child_name_like(dom, root, LocalName::Override);
        let node = NewElement::new(name).with_attr(QName::new(NsId::NoNamespace, LocalName::PartName), concat("/", uri)).with_attr(
            QName::new(NsId::NoNamespace, LocalName::ContentType),
            content_type.to_string(),
        );
        let ghost d0 = *dom;
        let ghost enode = node;
        proof {
            reveal_strlit("/");
            assert(crate::edit::new_attrs(node.attrs@) =~= seq![
                (QName { ns: NsId::NoNamespace, local: LocalName::PartName }, "/"@ + uri@),
                (QName { ns: NsId::NoNamespace, local: LocalName::ContentType }, content_type@),
            ]);
        }
        let mut plan = MutationPlan::new(ct_part);
        plan.node_edits.push(NodeEdit::Insert { parent: Target::Node(root), before: None, node });
        let ghost edits = plan.node_edits@;
        proof {
            if content_types_open(old(self).spec_pkg()) {
                assert(crate::edit::edit_ok(d0, edits, 0));
                assert(crate::edit::plan_valid(d0, edits));
            }
        }
        let res = self.commit_raw(plan)?;
        proof {
            let d1 = self.pkg.at(ct_part).dom->0;
            let tr = choose|tr: Seq<Dom>| crate::edit::applied_through(d0, edits, res.created@, tr, d1);
            assert(edits[0] == NodeEdit::Insert { parent: Target::Node(root), before: None, node: enode });
            assert(tr[0] == d0 && tr[1] == d1);
            if d1.nodes@.len() + 2 < u32::MAX {
                assert(crate::edit::new_parents_are_elements(d0, edits));
                assert(res.created@[0] is Some);
                let n = res.created@[0]->0;
                assert(crate::edit::edit_effect(tr[0], edits[0], res.created@.take(0), tr[1], res.created@[0]));
                assert(crate::edit::placed(d1, root, n, Some(enode.name)));
                assert(d1.kids(root) == d0.kids(root).push(n));
                assert(d1.at(n).parent == Some(d1.root));
            }
        }
        self.pkg.add_override(uri, content_type);
        Ok(())
    }

    /// `[Content_Types].xml`: an `Override` for entry `uri` (only a diagnostic when the package
    /// has no content types part).
    pub fn add_content_type_override(&mut self, uri: &str, content_type: &str) -> (r: Result<(), Error>)
        requires
            old(self).wf(),
        ensures
            final(self).spec_pkg().wf(),
            parts_stable(old(self).spec_pkg(), final(self).spec_pkg()),
            r is Ok ==> final(self).wf(),
            r is Ok && old(self).spec_pkg().content_types is Some ==> final(self).spec_pkg().overrides@.len() > 0
                && final(self).spec_pkg().overrides@.last().0@ == uri@ && final(self).spec_pkg().overrides@.last().1@ == content_type@,
            old(self).spec_pkg().content_types is None ==> r is Ok && final(self).spec_diags().len() == old(self).spec_diags().len() + 1
                && final(self).spec_diags().drop_last() == old(self).spec_diags()
                && final(self).spec_diags().last().code == DiagCode::EditUnsupported
                && final(self).spec_pkg().parts == old(self).spec_pkg().parts
                && final(self).spec_pkg().defaults == old(self).spec_pkg().defaults
                && final(self).spec_pkg().overrides == old(self).spec_pkg().overrides
                && final(self).spec_pkg().main == old(self).spec_pkg().main,
            content_types_open(old(self).spec_pkg()) ==> (r is Ok <==> crate::document::projectable(final(self).spec_pkg())),
            r is Ok ==> (old(self).spec_pkg().content_types matches Some(ct) ==> (final(self).spec_pkg().at(ct).dom matches Some(d1)
                && (d1.nodes@.len() + 2 < u32::MAX ==> root_last_child_with(d1, LocalName::Override, seq![
                    (QName { ns: NsId::NoNamespace, local: LocalName::PartName }, "/"@ + uri@),
                    (QName { ns: NsId::NoNamespace, local: LocalName::ContentType }, content_type@),
                ])))),
    {
        self.override_raw(uri, content_type)?;
        self.rebuild()
    }
}


impl EditSession {
    /// The `.rels` part of `part`, created (`<dir>/_rels/<name>.rels`) when missing.
    fn rels_part_raw(&mut self, part: PartId) -> (r: Result<PartId, Error>)
        requires
            old(self).spec_pkg().wf(),
            old(self).spec_pkg().has(part),
            old(self).spec_pkg().parts@.len() + 4 < u32::MAX,
        ensures
            final(self).spec_media() == old(self).spec_media(),
            final(self).spec_pkg().wf(),
            parts_stable(old(self).spec_pkg(), final(self).spec_pkg()),
            final(self).spec_pkg().parts@.len() <= old(self).spec_pkg().parts@.len() + 1,
            forall|j: int| 0 <= j < old(self).spec_pkg().parts@.len() && j != part.0 ==> (#[trigger] final(self).spec_pkg().parts@[j]).rels_part
                == old(self).spec_pkg().parts@[j].rels_part,
            old(self).spec_pkg().at(part).rels_part matches Some(p) ==> r == Ok::<PartId, Error>(p)
                && final(self).spec_pkg() == old(self).spec_pkg() && final(self).spec_diags() == old(self).spec_diags(),
            r matches Ok(p) ==> final(self).spec_pkg().at(part).rels_part == Some(p) && final(self).spec_pkg().has(p),
            old(self).spec_pkg().at(part).rels_part is None ==> (r matches Ok(p) ==> new_rels_part(old(self).spec_pkg(),
                final(self).spec_pkg(), part, p)),
            old(self).spec_pkg().at(part).rels_part is None ==> (r is Ok <==> default_addable(old(self).spec_pkg(), "rels"@)),
            old(self).spec_pkg().at(part).rels_part is None ==> (r matches Ok(p) ==> final(self).spec_pkg().at(p).dom matches Some(d)
                && empty_rels_tree(d)),
            old(self).spec_pkg().at(part).rels_part is None ==> (r is Ok ==> forall|j: int| 0 <= j < old(self).spec_pkg().parts@.len()
                && Some(PartId(j as u32)) != old(self).spec_pkg().content_types
                ==> (#[trigger] final(self).spec_pkg().parts@[j]).dom == old(self).spec_pkg().parts@[j].dom),
    {
        if let Some(p) = self.pkg.part(part).rels_part {
            return Ok(p);
        }
        let uri = self.pkg.part(part).uri.clone();
        let d = crate::paths::dir(uri.as_str());
        let f = crate::paths::file_name(uri.as_str());
        let mut path = if d.as_str().is_empty() {
            text("_rels/")
        } else {
            let mut x = d.clone();
            x.append("/_rels/");
            x
        };
        path.append(f.as_str());
        path.append(".rels");
        proof {
            reveal_strlit("_rels/");
            reveal_strlit("/_rels/");
            reveal_strlit(".rels");
            assert(path@ =~= rels_path(uri@));
        }
        let id = PartId(self.pkg.parts.len() as u32);
        let tree = Dom::single(id, QName::new(NsId::PackageRels, LocalName::Relationships));
        let rels_part = self.pkg.register_new_tree(path.as_str(), CT_RELS, tree);
        self.pkg.set_rels_part(part, rels_part);
        let ghost p2 = self.spec_pkg();
        self.default_type_raw("rels", CT_RELS)?;
        proof {
            reveal_strlit("rels");
            assert(fields_kept(p2.parts@[rels_part.0 as int], self.spec_pkg().parts@[rels_part.0 as int]));
        }
        Ok(rels_part)
    }

    /// The `.rels` part of `part`, created (`<dir>/_rels/<name>.rels`) when missing, with a
    /// `Default` content type for `rels`.
    pub fn ensure_rels_part(&mut self, part: PartId) -> (r: Result<PartId, Error>)
        requires
            old(self).wf(),
            old(self).spec_pkg().has(part),
            old(self).spec_pkg().parts@.len() + 4 < u32::MAX,
        ensures
            final(self).spec_pkg().wf(),
            rels_part_done(*old(self), *final(self), part, r),
            parts_stable(old(self).spec_pkg(), final(self).spec_pkg()),
            old(self).spec_pkg().at(part).rels_part matches Some(p) ==> r == Ok::<PartId, Error>(p)
                && final(self).spec_pkg() == old(self).spec_pkg(),
            r matches Ok(p) ==> final(self).wf() && final(self).spec_pkg().at(part).rels_part == Some(p)
                && final(self).spec_pkg().has(p),
            old(self).spec_pkg().at(part).rels_part is None ==> (r matches Ok(p) ==> new_rels_part(old(self).spec_pkg(),
                final(self).spec_pkg(), part, p) && (final(self).spec_pkg().at(p).dom matches Some(d) && empty_rels_tree(d))),
            old(self).spec_pkg().at(part).rels_part is None ==> (r is Ok <==> default_addable(old(self).spec_pkg(), "rels"@)
                && crate::document::projectable(final(self).spec_pkg())),
    {
        if let Some(p) = self.pkg.part(part).rels_part {
            return Ok(p);
        }
        let p = self.rels_part_raw(part)?;
        self.rebuild()?;
        Ok(p)
    }

    /// Appends a relationship of `kind` to `target` to `part`'s `.rels` (created when missing)
    /// and to its relationship list; returns the new id. `EditUnsupported` for a type without
    /// a URI.
    fn relationship_raw(&mut self, part: PartId, kind: RelType, target: &str, resolved: RelTarget) -> (r: Result<String, Error>)
        requires
            old(self).spec_pkg().wf(),
            old(self).spec_pkg().has(part),
            old(self).spec_pkg().parts@.len() + 4 < u32::MAX,
        ensures
            final(self).spec_media() == old(self).spec_media(),
            final(self).spec_pkg().wf(),
            final(self).spec_pkg().parts@.len() <= old(self).spec_pkg().parts@.len() + 1,
            final(self).spec_pkg().parts@.len() >= old(self).spec_pkg().parts@.len(),
            final(self).spec_pkg().main == old(self).spec_pkg().main,
            final(self).spec_pkg().content_types == old(self).spec_pkg().content_types,
            forall|j: int| 0 <= j < old(self).spec_pkg().parts@.len() ==> fields_kept(old(self).spec_pkg().parts@[j], #[trigger] final(self).spec_pkg().parts@[j]),
            forall|j: int| 0 <= j < old(self).spec_pkg().parts@.len() && j != part.0 ==> (#[trigger] final(self).spec_pkg().parts@[j]).rels
                == old(self).spec_pkg().parts@[j].rels,
            rel_type_uri(kind, old(self).spec_pkg().at(part).flavor) is None ==> (r matches Err(e) && e.has_code(DiagCode::EditUnsupported)),
            rel_addable(old(self).spec_pkg(), part, kind) && rels_room(final(self).spec_pkg(), part) ==> r is Ok,
            rel_type_uri(kind, old(self).spec_pkg().at(part).flavor) is Some && old(self).spec_pkg().at(part).rels_part is None
                && default_addable(old(self).spec_pkg(), "rels"@) && rels_room(final(self).spec_pkg(), part) ==> r is Ok,
            old(self).spec_pkg().at(part).rels_part matches Some(p) ==> final(self).spec_pkg().at(part).rels_part == Some(p),
            old(self).spec_pkg().at(part).rels_part is Some ==> final(self).spec_pkg().parts@.len() == old(self).spec_pkg().parts@.len(),
            old(self).spec_pkg().at(part).rels_part matches Some(rp) ==> forall|j: int| 0 <= j < old(self).spec_pkg().parts@.len()
                && j != rp.0 ==> (#[trigger] final(self).spec_pkg().parts@[j]).dom == old(self).spec_pkg().parts@[j].dom,
            r is Err ==> final(self).spec_pkg().at(part).rels == old(self).spec_pkg().at(part).rels,
            r matches Ok(id) ==> {
                let rels = final(self).spec_pkg().at(part).rels@;
                &&& id@ == "rId"@ + crate::text::spec_decimal(next_rid_number(old(self).spec_pkg().at(part).rels@))
                &&& rels.len() == old(self).spec_pkg().at(part).rels@.len() + 1
                &&& rels.subrange(0, rels.len() - 1) == old(self).spec_pkg().at(part).rels@
                &&& rels.last().id@ == id@
                &&& rels.last().kind == kind
                &&& rels.last().target == resolved
                &&& Some(rels.last().raw_type@) == rel_type_uri(kind, old(self).spec_pkg().at(part).flavor)
                &&& rel_element_in(final(self).spec_pkg(), part, rels.last(), target@, resolved is External)
            },
    {
        let external = match &resolved {
            RelTarget::External(_) => true,
            RelTarget::Internal(_) => false,
        };
        let flavor = self.pkg.flavor_of(part);
        let raw_type = match kind.uri(flavor) {
            Some(u) => u,
            None => {
                return Err(Error::edit(DiagCode::EditUnsupported, text("关系类型没有 URI")));
            },
        };
        let rels_part = self.rels_part_raw(part)?;
        let id = next_rel_id(&self.pkg.part(part).rels);
        let dom = match self.pkg.dom(rels_part) {
            Some(d) => d,
            None => {
                return Err(Error::edit(DiagCode::EditPlanInvalid, text(".rels 不是 XML part")));
            },
        };
        proof {
            assert(self.pkg.parts@[rels_part.0 as int].dom matches Some(d) ==> d.wf());
        }
        let root = dom.root();
        let name = child_name_like(dom, root, LocalName::Relationship);
        let mut node = NewElement::new(name).with_attr(QName::new(NsId::NoNamespace, LocalName::UId), id.clone()).with_attr(
            QName::new(NsId::NoNamespace, LocalName::UType),
            raw_type.clone(),
        ).with_attr(QName::new(NsId::NoNamespace, LocalName::Target), target.to_string());
        if external {
            node.push_attr(QName::new(NsId::NoNamespace, LocalName::TargetMode), text("External"));
        }
        let ghost d0 = *dom;
        let ghost enode = node;
        assert(crate::edit::new_attrs(node.attrs@) =~= rel_attrs(id@, raw_type@, target@, external));
        let mut plan = MutationPlan::new(rels_part);
        plan.node_edits.push(NodeEdit::Insert { parent: Target::Node(root), before: None, node });
        let ghost edits = plan.node_edits@;
        proof {
            if rel_addable(old(self).spec_pkg(), part, kind) || (old(self).spec_pkg().at(part).rels_part is None
                && default_addable(old(self).spec_pkg(), "rels"@)) {
                assert(crate::edit::edit_ok(d0, edits, 0));
                assert(crate::edit::plan_valid(d0, edits));
            }
        }
        let result = self.commit_raw(plan)?;
        let created = if result.created.len() > 0 {
            result.created[0]
        } else {
            None
        };
        let created = match created {
            Some(n) => n,
            None => {
                return Err(Error::edit(DiagCode::EditPlanInvalid, text("关系节点没有创建成功")));
            },
        };
        proof {
            let d1 = self.pkg.at(rels_part).dom->0;
            let tr = choose|tr: Seq<Dom>| crate::edit::applied_through(d0, edits, result.created@, tr, d1);
            assert(edits[0] == NodeEdit::Insert { parent: Target::Node(root), before: None, node: enode });
            assert(tr[0] == d0 && tr[1] == d1);
            assert(crate::edit::placed(d1, root, created, Some(enode.name)));
        }
        let ghost before = self.pkg.at(part).rels@;
        self.pkg.push_relationship(part, Relationship { id: id.clone(), kind, target: resolved, raw_type, node: created });
        assert(self.pkg.at(part).rels@.subrange(0, before.len() as int) =~= before);
        Ok(id)
    }

    /// Appends a relationship to `part`'s `.rels` (created when missing); returns its id.
    pub fn add_relationship(&mut self, part: PartId, kind: RelType, target: &str, resolved: RelTarget) -> (r: Result<String, Error>)
        requires
            old(self).wf(),
            old(self).spec_pkg().has(part),
            old(self).spec_pkg().parts@.len() + 4 < u32::MAX,
        ensures
            final(self).spec_pkg().wf(),
            rel_type_uri(kind, old(self).spec_pkg().at(part).flavor) is None ==> (r matches Err(e) && e.has_code(DiagCode::EditUnsupported)),
            rel_addable(old(self).spec_pkg(), part, kind) && rels_room(final(self).spec_pkg(), part)
                ==> (r is Ok <==> crate::document::projectable(final(self).spec_pkg())),
            rel_type_uri(kind, old(self).spec_pkg().at(part).flavor) is Some && old(self).spec_pkg().at(part).rels_part is None
                && default_addable(old(self).spec_pkg(), "rels"@) && rels_room(final(self).spec_pkg(), part)
                ==> (r is Ok <==> crate::document::projectable(final(self).spec_pkg())),
            r matches Ok(id) ==> final(self).wf() && {
                let rels = final(self).spec_pkg().at(part).rels@;
                &&& id@ == "rId"@ + crate::text::spec_decimal(next_rid_number(old(self).spec_pkg().at(part).rels@))
                &&& rels.len() == old(self).spec_pkg().at(part).rels@.len() + 1
                &&& rels.subrange(0, rels.len() - 1) == old(self).spec_pkg().at(part).rels@
                &&& rels.last().id@ == id@
                &&& rels.last().kind == kind
                &&& rels.last().target == resolved
                &&& Some(rels.last().raw_type@) == rel_type_uri(kind, old(self).spec_pkg().at(part).flavor)
                &&& rel_element_in(final(self).spec_pkg(), part, rels.last(), target@, resolved is External)
                &&& next_rid_number(old(self).spec_pkg().at(part).rels@) < 1_000_000_000 ==> forall|k: int|
                    0 <= k < old(self).spec_pkg().at(part).rels@.len() ==> (#[trigger] old(self).spec_pkg().at(part).rels@[k]).id@ != id@
            },
    {
        proof {
            if next_rid_number(old(self).spec_pkg().at(part).rels@) < 1_000_000_000 {
                lemma_next_rel_id_fresh(old(self).spec_pkg().at(part).rels@);
            }
        }
        let id = self.relationship_raw(part, kind, target, resolved)?;
        self.rebuild()?;
        Ok(id)
    }

    /// Appends an external relationship to `target` to `part`'s existing `.rels`; returns its
    /// id. A part without a `.rels` is refused with `EditUnsupported` and nothing changes
    /// (making one is the business of [`EditSession::ensure_rels_part`]).
    pub fn add_external_relationship(&mut self, part: PartId, kind: RelType, target: &str) -> (r: Result<String, Error>)
        requires
            old(self).wf(),
            old(self).spec_pkg().has(part),
            old(self).spec_pkg().parts@.len() + 4 < u32::MAX,
        ensures
            final(self).spec_pkg().wf(),
            old(self).spec_pkg().at(part).rels_part is None ==> (r matches Err(e) && e.has_code(DiagCode::EditUnsupported)
                && *final(self) == *old(self)),
            rel_type_uri(kind, old(self).spec_pkg().at(part).flavor) is None ==> (r matches Err(e) && e.has_code(DiagCode::EditUnsupported)),
            rel_addable(old(self).spec_pkg(), part, kind) && rels_room(final(self).spec_pkg(), part)
                ==> (r is Ok <==> crate::document::projectable(final(self).spec_pkg())),
            r matches Ok(id) ==> final(self).wf() && {
                let rels = final(self).spec_pkg().at(part).rels@;
                &&& id@ == "rId"@ + crate::text::spec_decimal(next_rid_number(old(self).spec_pkg().at(part).rels@))
                &&& rels.len() == old(self).spec_pkg().at(part).rels@.len() + 1
                &&& rels.subrange(0, rels.len() - 1) == old(self).spec_pkg().at(part).rels@
                &&& rels.last().id@ == id@
                &&& rels.last().kind == kind
                &&& (rels.last().target matches RelTarget::External(t) && t@ == target@)
                &&& Some(rels.last().raw_type@) == rel_type_uri(kind, old(self).spec_pkg().at(part).flavor)
                &&& rel_element_in(final(self).spec_pkg(), part, rels.last(), target@, true)
                &&& next_rid_number(old(self).spec_pkg().at(part).rels@) < 1_000_000_000 ==> forall|k: int|
                    0 <= k < old(self).spec_pkg().at(part).rels@.len() ==> (#[trigger] old(self).spec_pkg().at(part).rels@[k]).id@ != id@
            },
    {
        if self.pkg.part(part).rels_part.is_none() {
            return Err(Error::edit(DiagCode::EditUnsupported, text("part 没有 .rels")));
        }
        self.add_relationship(part, kind, target, RelTarget::External(target.to_string()))
    }
}


/// The new part `uri` is related from `owner` with the target written relative to `owner`'s
/// directory, in a `Relationship` element of `owner`'s `.rels` (when that is not the content
/// types part), and has an `Override` content type (when there is a content types part).
pub open spec fn part_related(p0: Package, p1: Package, owner: PartId, uri: Seq<char>, content_type: Seq<char>) -> bool {
    let rels = p1.at(owner).rels@;
    &&& rels.len() > 0
    &&& p1.at(owner).rels_part != p1.content_types ==> rel_element_in(p1, owner, rels.last(),
        crate::paths::spec_relative_target(crate::paths::dir_of(p0.at(owner).uri@), uri), false)
    &&& p1.content_types == p0.content_types
    &&& p0.content_types is Some ==> p1.overrides@.len() > 0 && p1.overrides@.last().0@ == uri
        && p1.overrides@.last().1@ == content_type
}

/// `b` is `a` with one new part `id` at the end, every old part keeping its entry name and
/// deletion mark, and `owner`'s relationships extended by one.
pub open spec fn part_appended(a: Package, b: Package, owner: PartId, id: PartId) -> bool {
    &&& b.parts@.len() == a.parts@.len() + 1
    &&& id.0 as int == a.parts@.len()
    &&& !b.at(id).deleted
    &&& b.main == a.main
    &&& forall|j: int| 0 <= j < a.parts@.len() ==> fields_kept(a.parts@[j], #[trigger] b.parts@[j])
    &&& b.at(owner).rels@ == a.at(owner).rels@.push(b.at(owner).rels@.last())
}

/// Finding an entry name among parts with one part appended.
pub proof fn lemma_find_appended(a: Seq<crate::package::Part>, b: Seq<crate::package::Part>, u: Seq<char>, i: int)
    requires
        b.len() == a.len() + 1,
        0 <= i <= a.len(),
        forall|j: int| 0 <= j < a.len() ==> (#[trigger] b[j]).uri == a[j].uri && b[j].deleted == a[j].deleted,
    ensures
        crate::package::find_from(b, u, i) == match crate::package::find_from(a, u, i) {
            Some(x) => Some(x),
            None => if !b[a.len() as int].deleted && b[a.len() as int].uri@ == u { Some(PartId(a.len() as u32)) } else { None },
        },
    decreases a.len() - i,
{
    if i < a.len() {
        lemma_find_appended(a, b, u, i + 1);
    } else {
        assert(crate::package::find_from(b, u, i + 1) is None);
    }
}

/// After a part `id` and a relationship of `kind` to it are appended, the first related part
/// of that kind is `id` when there was none before.
proof fn lemma_related_appended(a: Seq<crate::package::Part>, b: Seq<crate::package::Part>, rels: Seq<Relationship>,
    rel: Relationship, kind: RelType, id: PartId, k: int)
    requires
        b.len() == a.len() + 1,
        a.len() < u32::MAX,
        id.0 as int == a.len(),
        !b[a.len() as int].deleted,
        forall|j: int| 0 <= j < a.len() ==> (#[trigger] b[j]).uri == a[j].uri && b[j].deleted == a[j].deleted,
        crate::package::related_from(a, rels, kind, k) is None,
        rel.kind == kind,
        rel.target matches RelTarget::Internal(t) && t@ == b[a.len() as int].uri@,
        crate::package::find_from(a, b[a.len() as int].uri@, 0) is None,
        0 <= k <= rels.len(),
    ensures
        crate::package::related_from(b, rels.push(rel), kind, k) == Some(id),
    decreases rels.len() - k,
{
    let rs = rels.push(rel);
    if k < rels.len() {
        assert(rs[k] == rels[k]);
        if rels[k].kind == kind && rels[k].target is Internal {
            lemma_find_appended(a, b, rels[k].target->Internal_0@, 0);
        }
        lemma_related_appended(a, b, rels, rel, kind, id, k + 1);
    } else {
        assert(rs[k] == rel);
        lemma_find_appended(a, b, rel.target->Internal_0@, 0);
        crate::package::lemma_find_in_range(a, rel.target->Internal_0@, 0);
    }
}

/// A new part related from the main part by `kind`, when none was before, is the main
/// part's related part of that kind.
proof fn lemma_new_main_related(p0: Package, p1: Package, kind: RelType, id: PartId)
    requires
        part_appended(p0, p1, p0.main, id),
        p0.parts@.len() < u32::MAX,
        crate::document::main_related(p0, kind) is None,
        p1.at(p1.main).rels@.last().kind == kind,
        p1.at(p1.main).rels@.last().target matches RelTarget::Internal(t) && t@ == p1.at(id).uri@,
        crate::package::find_from(p0.parts@, p1.at(id).uri@, 0) is None,
    ensures
        crate::document::main_related(p1, kind) == Some(id),
{
    assert forall|j: int| 0 <= j < p0.parts@.len() implies (#[trigger] p1.parts@[j]).uri == p0.parts@[j].uri
        && p1.parts@[j].deleted == p0.parts@[j].deleted by {
        assert(fields_kept(p0.parts@[j], p1.parts@[j]));
    }
    lemma_related_appended(p0.parts@, p1.parts@, p0.at(p0.main).rels@, p1.at(p1.main).rels@.last(), kind, id, 0);
}

impl EditSession {
    /// A new XML part `uri` parsed from `xml`, related from `owner` by `kind` (the target
    /// written relative to `owner`'s directory) and given an `Override` content type.
    fn part_raw(&mut self, owner: PartId, kind: RelType, uri: &str, content_type: &str, xml: &str) -> (r: Result<(PartId, String), Error>)
        requires
            old(self).spec_pkg().wf(),
            old(self).spec_pkg().has(owner),
            old(self).spec_pkg().parts@.len() + 8 < u32::MAX,
        ensures
            final(self).spec_media() == old(self).spec_media(),
            final(self).spec_pkg().wf(),
            final(self).spec_pkg().main == old(self).spec_pkg().main,
            crate::package::find_from(old(self).spec_pkg().parts@, uri@, 0) is Some ==> (r matches Err(e)
                && e.has_code(DiagCode::EditPlanInvalid) && *final(self) == *old(self)),
            part_addable(old(self).spec_pkg(), owner, kind, uri@) && crate::parse::xml_tree(xml@) is Some
                && rels_room(final(self).spec_pkg(), owner) ==> r is Ok,
            old(self).spec_pkg().at(owner).rels_part is Some ==> (r matches Ok((id, rid)) ==> final(self).spec_pkg().at(id).dom
                matches Some(d) && crate::parse::tree_view(d) == crate::parse::xml_tree(xml@)->0),
            r matches Ok((id, rid)) ==> {
                let p = final(self).spec_pkg();
                let rels = p.at(owner).rels@;
                &&& p.has(id)
                &&& p.at(id).uri@ == uri@
                &&& p.at(id).content_type@ == content_type@
                &&& p.at(id).dom is Some
                &&& rels.len() == old(self).spec_pkg().at(owner).rels@.len() + 1
                &&& rels.last().id@ == rid@
                &&& rels.last().kind == kind
                &&& (rels.last().target matches RelTarget::Internal(t) && t@ == uri@)
            },
            old(self).spec_pkg().at(owner).rels_part is Some ==> (r matches Ok((id, rid)) ==> part_appended(old(self).spec_pkg(),
                final(self).spec_pkg(), owner, id)),
            r is Ok ==> part_related(old(self).spec_pkg(), final(self).spec_pkg(), owner, uri@, content_type@),
            r matches Ok((id, rid)) ==> rid@ == "rId"@ + crate::text::spec_decimal(next_rid_number(old(self).spec_pkg().at(owner).rels@)),
            old(self).spec_pkg().at(owner).rels_part matches Some(rp) ==> (r is Ok ==> forall|j: int| 0 <= j < old(self).spec_pkg().parts@.len()
                && j != rp.0 && Some(PartId(j as u32)) != old(self).spec_pkg().content_types
                ==> (#[trigger] final(self).spec_pkg().parts@[j]).dom == old(self).spec_pkg().parts@[j].dom),
    {
        if self.pkg.find(uri).is_some() {
            let mut msg = text("part ");
            msg.append(uri);
            msg.append(" 已存在");
            return Err(Error::edit(DiagCode::EditPlanInvalid, msg));
        }
        let part = self.pkg.register_new_part(uri, content_type, xml)?;
        let ghost p1 = self.pkg;
        let owner_dir = crate::paths::dir(self.pkg.part(owner).uri.as_str());
        let target = crate::paths::relative_target(owner_dir.as_str(), uri);
        proof {
            let p0 = old(self).pkg;
            if part_addable(p0, owner, kind, uri@) {
                assert(p1.parts@[owner.0 as int] == p0.parts@[owner.0 as int]);
                let rp = p0.at(owner).rels_part->0;
                assert(p1.parts@[rp.0 as int] == p0.parts@[rp.0 as int]);
                assert(rel_addable(p1, owner, kind));
            }
        }
        let rid = self.relationship_raw(owner, kind, target.as_str(), RelTarget::Internal(uri.to_string()))?;
        let ghost p2 = self.pkg;
        proof {
            let p0 = old(self).pkg;
            if part_addable(p0, owner, kind, uri@) {
                if let Some(ct) = p0.content_types {
                    assert(p1.parts@[ct.0 as int] == p0.parts@[ct.0 as int]);
                    assert(p2.parts@[ct.0 as int].dom == p1.parts@[ct.0 as int].dom);
                }
                assert(content_types_open(p2));
            }
        }
        self.override_raw(uri, content_type)?;
        proof {
            let p0 = old(self).pkg;
            if let Some(rp) = p0.at(owner).rels_part {
                assert(part.0 as int == p0.parts@.len());
                assert((rp.0 as int) < p0.parts@.len());
                assert(p2.parts@[part.0 as int].dom == p1.parts@[part.0 as int].dom);
                if let Some(ct) = p0.content_types {
                    assert((ct.0 as int) < p0.parts@.len());
                }
                assert(self.pkg.parts@[part.0 as int] == p2.parts@[part.0 as int]);
            }
            if part_addable(p0, owner, kind, uri@) {
                let rp = p0.at(owner).rels_part->0;
                assert(Some(rp) != p2.content_types);
                assert(self.pkg.parts@[rp.0 as int] == p2.parts@[rp.0 as int]);
                assert(self.pkg.parts@[owner.0 as int].rels_part == p2.parts@[owner.0 as int].rels_part);
            }
        }
        proof {
            assert(p2.parts@[part.0 as int].uri == p1.parts@[part.0 as int].uri);
            let p3 = self.pkg;
            assert(p1.parts@[owner.0 as int].uri == old(self).pkg.parts@[owner.0 as int].uri);
            if let Some(rp) = p3.at(owner).rels_part {
                if p3.at(owner).rels_part != p3.content_types {
                    assert(p3.parts@[rp.0 as int] == p2.parts@[rp.0 as int]);
                }
            }
            assert(part_related(old(self).pkg, p3, owner, uri@, content_type@));
            let p0 = old(self).pkg;
            let p3 = self.pkg;
            if p0.at(owner).rels_part is Some {
                assert(p1.parts@[owner.0 as int] == p0.parts@[owner.0 as int]);
                assert(p2.parts@.len() == p1.parts@.len());
                assert forall|j: int| 0 <= j < p0.parts@.len() implies fields_kept(p0.parts@[j], #[trigger] p3.parts@[j]) by {
                    assert(p1.parts@[j] == p0.parts@[j]);
                    assert(fields_kept(p1.parts@[j], p2.parts@[j]));
                    assert(fields_kept(p2.parts@[j], p3.parts@[j]));
                }
                assert(fields_kept(p1.parts@[part.0 as int], p2.parts@[part.0 as int]));
                assert(fields_kept(p2.parts@[part.0 as int], p3.parts@[part.0 as int]));
                let rels = p2.at(owner).rels@;
                assert(rels =~= p1.at(owner).rels@.push(rels.last()));
                assert(part_appended(p0, p3, owner, part));
            }
        }
        Ok((part, rid))
    }

    /// A new XML part `uri` holding `xml`, related from `owner` by `kind` and given an
    /// `Override` content type; returns the part and the relationship id. `EditPlanInvalid`
    /// when the entry exists already.
    pub fn add_part(&mut self, owner: PartId, kind: RelType, uri: &str, content_type: &str, xml: &str) -> (r: Result<(PartId, String), Error>)
        requires
            old(self).wf(),
            old(self).spec_pkg().has(owner),
            old(self).spec_pkg().parts@.len() + 8 < u32::MAX,
        ensures
            final(self).spec_pkg().wf(),
            crate::package::find_from(old(self).spec_pkg().parts@, uri@, 0) is Some ==> (r matches Err(e)
                && e.has_code(DiagCode::EditPlanInvalid) && *final(self) == *old(self)),
            final(self).spec_pkg().main == old(self).spec_pkg().main,
            part_addable(old(self).spec_pkg(), owner, kind, uri@) && crate::parse::xml_tree(xml@) is Some
                && rels_room(final(self).spec_pkg(), owner) ==> (r is Ok <==> crate::document::projectable(final(self).spec_pkg())),
            r matches Ok((id, rid)) ==> final(self).wf() && {
                let p = final(self).spec_pkg();
                let rels = p.at(owner).rels@;
                &&& p.has(id)
                &&& p.at(id).uri@ == uri@
                &&& p.at(id).content_type@ == content_type@
                &&& rels.len() > 0
                &&& part_related(old(self).spec_pkg(), p, owner, uri@, content_type@)
                &&& rid@ == "rId"@ + crate::text::spec_decimal(next_rid_number(old(self).spec_pkg().at(owner).rels@))
                &&& (old(self).spec_pkg().at(owner).rels_part matches Some(rp) ==> forall|j: int| 0 <= j < old(self).spec_pkg().parts@.len()
                    && j != rp.0 && Some(PartId(j as u32)) != old(self).spec_pkg().content_types
                    ==> (#[trigger] p.parts@[j]).dom == old(self).spec_pkg().parts@[j].dom)
                &&& (old(self).spec_pkg().at(owner).rels_part is Some ==> part_appended(old(self).spec_pkg(), p, owner, id))
                &&& rels.last().id@ == rid@
                &&& rels.last().kind == kind
                &&& (rels.last().target matches RelTarget::Internal(t) && t@ == uri@)
            },
    {
        let r = self.part_raw(owner, kind, uri, content_type, xml)?;
        self.rebuild()?;
        Ok(r)
    }

    /// A new binary part `uri` holding `bytes`, related from `owner` by `kind` (the target is
    /// `uri` without `owner`'s directory) and given a `Default` content type for its extension.
    pub fn add_binary_part(&mut self, owner: PartId, kind: RelType, uri: &str, content_type: &str, bytes: Vec<u8>) -> (r: Result<(PartId, String), Error>)
        requires
            old(self).wf(),
            old(self).spec_pkg().has(owner),
            old(self).spec_pkg().parts@.len() + 8 < u32::MAX,
        ensures
            final(self).spec_media() == old(self).spec_media(),
            final(self).spec_pkg().wf(),
            final(self).spec_pkg().main == old(self).spec_pkg().main,
            crate::package::find_from(old(self).spec_pkg().parts@, uri@, 0) is Some ==> (r matches Err(e)
                && e.has_code(DiagCode::EditPlanInvalid) && *final(self) == *old(self)),
            part_addable(old(self).spec_pkg(), owner, kind, uri@) && rels_room(final(self).spec_pkg(), owner)
                ==> (r is Ok <==> crate::document::projectable(final(self).spec_pkg())),
            old(self).spec_pkg().at(owner).rels_part matches Some(p) ==> final(self).spec_pkg().at(owner).rels_part == Some(p),
            old(self).spec_pkg().at(owner).rels_part is Some ==> (r is Ok ==> final(self).spec_pkg().parts@.len()
                == old(self).spec_pkg().parts@.len() + 1),
            old(self).spec_pkg().at(owner).rels_part matches Some(rp) ==> (r is Ok ==> forall|j: int| 0 <= j < old(self).spec_pkg().parts@.len()
                && j != rp.0 && Some(PartId(j as u32)) != old(self).spec_pkg().content_types
                ==> (#[trigger] final(self).spec_pkg().parts@[j]).dom == old(self).spec_pkg().parts@[j].dom),
            r matches Ok((id, rid)) ==> final(self).wf() && {
                let p = final(self).spec_pkg();
                let rels = p.at(owner).rels@;
                &&& p.has(id)
                &&& p.at(id).uri@ == uri@
                &&& p.at(id).bytes@ == bytes@
                &&& p.main == old(self).spec_pkg().main
                &&& rels.len() == old(self).spec_pkg().at(owner).rels@.len() + 1
                &&& rels.subrange(0, rels.len() - 1) == old(self).spec_pkg().at(owner).rels@
                &&& rid@ == "rId"@ + crate::text::spec_decimal(next_rid_number(old(self).spec_pkg().at(owner).rels@))
                &&& rels.last().id@ == rid@
                &&& rels.last().kind == kind
                &&& (rels.last().target matches RelTarget::Internal(t) && t@ == uri@)
            },
    {
        if self.pkg.find(uri).is_some() {
            let mut msg = text("part ");
            msg.append(uri);
            msg.append(" 已存在");
            return Err(Error::edit(DiagCode::EditPlanInvalid, msg));
        }
        let part = self.pkg.register_new_binary_part(uri, content_type, bytes);
        let ghost p1 = self.pkg;
        let mut prefix = crate::paths::dir(self.pkg.part(owner).uri.as_str());
        prefix.append("/");
        let target = match crate::paths::strip_prefix(uri, prefix.as_str()) {
            Some(t) => t,
            None => uri.to_string(),
        };
        proof {
            let p0 = old(self).pkg;
            if part_addable(p0, owner, kind, uri@) {
                assert(p1.parts@[owner.0 as int] == p0.parts@[owner.0 as int]);
                let rp = p0.at(owner).rels_part->0;
                assert(p1.parts@[rp.0 as int] == p0.parts@[rp.0 as int]);
                assert(rel_addable(p1, owner, kind));
            }
        }
        let rid = self.relationship_raw(owner, kind, target.as_str(), RelTarget::Internal(uri.to_string()))?;
        let ghost p2 = self.pkg;
        proof {
            let p0 = old(self).pkg;
            if part_addable(p0, owner, kind, uri@) {
                if let Some(ct) = p0.content_types {
                    assert(p1.parts@[ct.0 as int] == p0.parts@[ct.0 as int]);
                    assert(p2.parts@[ct.0 as int].dom == p1.parts@[ct.0 as int].dom);
                }
                assert(content_types_open(p2));
            }
        }
        if let Some(ext) = crate::paths::extension(uri) {
            self.default_type_raw(ext.as_str(), content_type)?;
        }
        proof {
            let p0 = old(self).pkg;
            if let Some(rp) = p0.at(owner).rels_part {
                assert forall|j: int| 0 <= j < p0.parts@.len() && j != rp.0 && Some(PartId(j as u32)) != p0.content_types
                    implies (#[trigger] self.pkg.parts@[j]).dom == p0.parts@[j].dom by {
                    assert(p1.parts@[j] == p0.parts@[j]);
                    assert(p2.parts@[j].dom == p1.parts@[j].dom);
                }
            }
            if part_addable(p0, owner, kind, uri@) {
                let rp = p0.at(owner).rels_part->0;
                assert(Some(rp) != p2.content_types);
                assert(self.pkg.parts@[rp.0 as int] == p2.parts@[rp.0 as int]);
                assert(self.pkg.parts@[owner.0 as int].rels_part == p2.parts@[owner.0 as int].rels_part);
            }
        }
        proof {
            assert(p2.parts@[part.0 as int].uri == p1.parts@[part.0 as int].uri);
        }
        self.rebuild()?;
        Ok((part, rid))
    }
}


impl EditSession {
    /// The comments part, created (an empty `w:comments`) when the main part has none.
    pub fn ensure_comments_part(&mut self) -> (r: Result<PartId, Error>)
        requires
            old(self).wf(),
            old(self).spec_pkg().parts@.len() + 8 < u32::MAX,
        ensures
            final(self).spec_pkg().wf(),
            old(self).spec_doc().comments_part matches Some(p) ==> r == Ok::<PartId, Error>(p)
                && final(self).spec_pkg() == old(self).spec_pkg(),
            r is Ok ==> final(self).wf(),
            r matches Ok(p) ==> final(self).spec_pkg().has(p),
            old(self).spec_doc().comments_part is None && old(self).spec_pkg().at(old(self).spec_pkg().main).rels_part is Some
                ==> (r matches Ok(p) ==> final(self).spec_doc().comments_part == Some(p)
                && final(self).spec_pkg().at(p).uri@ == "word/comments.xml"@
                && (final(self).spec_pkg().at(p).dom matches Some(d) && crate::parse::tree_view(d)
                    == crate::parse::xml_tree(empty_root_text(old(self).spec_pkg().at(old(self).spec_pkg().main).flavor, "comments"@))->0)
                && part_related(old(self).spec_pkg(), final(self).spec_pkg(), old(self).spec_pkg().main, "word/comments.xml"@, CT_COMMENTS@)),
            old(self).spec_doc().comments_part is None
                && part_addable(old(self).spec_pkg(), old(self).spec_pkg().main, RelType::Comments, "word/comments.xml"@)
                && crate::parse::xml_tree(empty_root_text(old(self).spec_pkg().at(old(self).spec_pkg().main).flavor, "comments"@)) is Some
                && rels_room(final(self).spec_pkg(), old(self).spec_pkg().main)
                ==> (r is Ok <==> crate::document::projectable(final(self).spec_pkg())),
    {
        if let Some(p) = self.doc.comments_part {
            proof {
                crate::package::lemma_related_in_range(self.pkg.parts@, self.pkg.at(self.pkg.main).rels@, RelType::Comments, 0);
            }
            return Ok(p);
        }
        let main = self.pkg.main_part();
        let xml = empty_root_xml(self.pkg.flavor_of(main), "comments");
        let (id, _) = self.part_raw(main, RelType::Comments, "word/comments.xml", CT_COMMENTS, xml.as_str())?;
        proof {
            if old(self).spec_pkg().at(main).rels_part is Some {
                lemma_new_main_related(old(self).spec_pkg(), self.spec_pkg(), RelType::Comments, id);
            }
        }
        self.rebuild()?;
        Ok(id)
    }

    /// `word/settings.xml`, created (an empty `w:settings`) when the main part relates to no
    /// settings part and there is no such entry.
    pub fn ensure_settings_part(&mut self) -> (r: Result<PartId, Error>)
        requires
            old(self).wf(),
            old(self).spec_pkg().parts@.len() + 8 < u32::MAX,
        ensures
            final(self).spec_pkg().wf(),
            r is Ok ==> final(self).wf(),
            crate::document::main_related(old(self).spec_pkg(), RelType::Settings) matches Some(p) ==> r
                == Ok::<PartId, Error>(p) && final(self).spec_pkg() == old(self).spec_pkg(),
            r matches Ok(p) ==> final(self).spec_pkg().has(p),
            crate::document::main_related(old(self).spec_pkg(), RelType::Settings) is None ==> (
                crate::package::find_from(old(self).spec_pkg().parts@, "word/settings.xml"@, 0) matches Some(p)
                ==> r == Ok::<PartId, Error>(p) && final(self).spec_pkg() == old(self).spec_pkg()),
            crate::document::main_related(old(self).spec_pkg(), RelType::Settings) is None
                && crate::package::find_from(old(self).spec_pkg().parts@, "word/settings.xml"@, 0) is None
                && old(self).spec_pkg().at(old(self).spec_pkg().main).rels_part is Some
                ==> (r matches Ok(p) ==> crate::document::main_related(final(self).spec_pkg(), RelType::Settings) == Some(p)
                && final(self).spec_pkg().at(p).uri@ == "word/settings.xml"@
                && (final(self).spec_pkg().at(p).dom matches Some(d) && crate::parse::tree_view(d)
                    == crate::parse::xml_tree(empty_root_text(old(self).spec_pkg().at(old(self).spec_pkg().main).flavor, "settings"@))->0)
                && part_related(old(self).spec_pkg(), final(self).spec_pkg(), old(self).spec_pkg().main, "word/settings.xml"@, CT_SETTINGS@)),
            crate::document::main_related(old(self).spec_pkg(), RelType::Settings) is None
                && part_addable(old(self).spec_pkg(), old(self).spec_pkg().main, RelType::Settings, "word/settings.xml"@)
                && crate::parse::xml_tree(empty_root_text(old(self).spec_pkg().at(old(self).spec_pkg().main).flavor, "settings"@)) is Some
                && rels_room(final(self).spec_pkg(), old(self).spec_pkg().main)
                ==> (r is Ok <==> crate::document::projectable(final(self).spec_pkg())),
    {
        let main = self.pkg.main_part();
        if let Some(id) = self.pkg.related(main, RelType::Settings) {
            return Ok(id);
        }
        if let Some(id) = self.pkg.find("word/settings.xml") {
            return Ok(id);
        }
        let xml = empty_root_xml(self.pkg.flavor_of(main), "settings");
        let (id, _) = self.part_raw(main, RelType::Settings, "word/settings.xml", CT_SETTINGS, xml.as_str())?;
        proof {
            if old(self).spec_pkg().at(main).rels_part is Some {
                lemma_new_main_related(old(self).spec_pkg(), self.spec_pkg(), RelType::Settings, id);
            }
        }
        self.rebuild()?;
        Ok(id)
    }

    /// The footnotes (`endnote == false`) or endnotes part, created with the two separator
    /// entries Word expects when the main part has none.
    pub fn ensure_notes_part(&mut self, endnote: bool) -> (r: Result<PartId, Error>)
        requires
            old(self).wf(),
            old(self).spec_pkg().parts@.len() + 8 < u32::MAX,
        ensures
            final(self).spec_pkg().wf(),
            r is Ok ==> final(self).wf(),
            (if endnote { old(self).spec_doc().endnotes_part } else { old(self).spec_doc().footnotes_part }) matches Some(p)
                ==> r == Ok::<PartId, Error>(p) && final(self).spec_pkg() == old(self).spec_pkg(),
            r matches Ok(p) ==> final(self).spec_pkg().has(p),
            (if endnote { old(self).spec_doc().endnotes_part } else { old(self).spec_doc().footnotes_part }) is None
                && old(self).spec_pkg().at(old(self).spec_pkg().main).rels_part is Some
                ==> (r matches Ok(p) ==> (if endnote { final(self).spec_doc().endnotes_part } else { final(self).spec_doc().footnotes_part }) == Some(p)
                && final(self).spec_pkg().at(p).uri@ == (if endnote { "word/endnotes.xml"@ } else { "word/footnotes.xml"@ })
                && (final(self).spec_pkg().at(p).dom matches Some(d) && crate::parse::tree_view(d)
                    == crate::parse::xml_tree(notes_text(old(self).spec_pkg().at(old(self).spec_pkg().main).flavor, endnote))->0)
                && part_related(old(self).spec_pkg(), final(self).spec_pkg(), old(self).spec_pkg().main,
                    if endnote { "word/endnotes.xml"@ } else { "word/footnotes.xml"@ }, if endnote { CT_ENDNOTES@ } else { CT_FOOTNOTES@ })),
            (if endnote { old(self).spec_doc().endnotes_part } else { old(self).spec_doc().footnotes_part }) is None
                && part_addable(old(self).spec_pkg(), old(self).spec_pkg().main, if endnote { RelType::Endnotes } else { RelType::Footnotes },
                    if endnote { "word/endnotes.xml"@ } else { "word/footnotes.xml"@ })
                && crate::parse::xml_tree(notes_text(old(self).spec_pkg().at(old(self).spec_pkg().main).flavor, endnote)) is Some
                && rels_room(final(self).spec_pkg(), old(self).spec_pkg().main)
                ==> (r is Ok <==> crate::document::projectable(final(self).spec_pkg())),
    {
        let existing = if endnote {
            self.doc.endnotes_part
        } else {
            self.doc.footnotes_part
        };
        if let Some(p) = existing {
            proof {
                crate::package::lemma_related_in_range(self.pkg.parts@, self.pkg.at(self.pkg.main).rels@, RelType::Endnotes, 0);
                crate::package::lemma_related_in_range(self.pkg.parts@, self.pkg.at(self.pkg.main).rels@, RelType::Footnotes, 0);
            }
            return Ok(p);
        }
        let main = self.pkg.main_part();
        let w = w_namespace(self.pkg.flavor_of(main));
        let (root, entry) = if endnote {
            ("endnotes", "endnote")
        } else {
            ("footnotes", "footnote")
        };
        let mut xml = text("<?xml version=\"1.0\" encoding=\"UTF-8\" standalone=\"yes\"?><w:");
        xml.append(root);
        xml.append(" xmlns:w=\"");
        xml.append(w);
        xml.append("\"><w:");
        xml.append(entry);
        xml.append(" w:type=\"separator\" w:id=\"-1\"><w:p><w:r><w:separator/></w:r></w:p></w:");
        xml.append(entry);
        xml.append("><w:");
        xml.append(entry);
        xml.append(" w:type=\"continuationSeparator\" w:id=\"0\"><w:p><w:r><w:continuationSeparator/></w:r></w:p></w:");
        xml.append(entry);
        xml.append("></w:");
        xml.append(root);
        xml.append(">");
        assert(xml@ == notes_text(self.pkg.at(main).flavor, endnote));
        let (kind, uri, ct) = if endnote {
            (RelType::Endnotes, "word/endnotes.xml", CT_ENDNOTES)
        } else {
            (RelType::Footnotes, "word/footnotes.xml", CT_FOOTNOTES)
        };
        let (id, _) = self.part_raw(main, kind, uri, ct, xml.as_str())?;
        proof {
            if old(self).spec_pkg().at(main).rels_part is Some {
                lemma_new_main_related(old(self).spec_pkg(), self.spec_pkg(), kind, id);
            }
        }
        self.rebuild()?;
        Ok(id)
    }

    /// The `commentsExtended` part (replies and resolved state), created when the main part
    /// has none.
    pub fn ensure_comments_extended_part(&mut self) -> (r: Result<PartId, Error>)
        requires
            old(self).wf(),
            old(self).spec_pkg().parts@.len() + 8 < u32::MAX,
        ensures
            final(self).spec_pkg().wf(),
            r is Ok ==> final(self).wf(),
            old(self).spec_doc().comments_extended_part matches Some(p) ==> r == Ok::<PartId, Error>(p)
                && final(self).spec_pkg() == old(self).spec_pkg(),
            r matches Ok(p) ==> final(self).spec_pkg().has(p),
            old(self).spec_doc().comments_extended_part is None && old(self).spec_pkg().at(old(self).spec_pkg().main).rels_part is Some
                ==> (r matches Ok(p) ==> final(self).spec_doc().comments_extended_part == Some(p)
                && final(self).spec_pkg().at(p).uri@ == "word/commentsExtended.xml"@
                && (final(self).spec_pkg().at(p).dom matches Some(d) && crate::parse::tree_view(d)
                    == crate::parse::xml_tree(comments_ex_text())->0)
                && part_related(old(self).spec_pkg(), final(self).spec_pkg(), old(self).spec_pkg().main,
                    "word/commentsExtended.xml"@, CT_COMMENTS_EXTENDED@)),
            old(self).spec_doc().comments_extended_part is None
                && part_addable(old(self).spec_pkg(), old(self).spec_pkg().main, RelType::CommentsExtended, "word/commentsExtended.xml"@)
                && crate::parse::xml_tree(comments_ex_text()) is Some
                && rels_room(final(self).spec_pkg(), old(self).spec_pkg().main)
                ==> (r is Ok <==> crate::document::projectable(final(self).spec_pkg())),
    {
        if let Some(p) = self.doc.comments_extended_part {
            proof {
                crate::package::lemma_related_in_range(self.pkg.parts@, self.pkg.at(self.pkg.main).rels@, RelType::CommentsExtended, 0);
            }
            return Ok(p);
        }
        let main = self.pkg.main_part();
        let xml = text("<?xml version=\"1.0\" encoding=\"UTF-8\" standalone=\"yes\"?><w15:commentsEx xmlns:w15=\"http://schemas.microsoft.com/office/word/2012/wordml\"/>");
        let (id, _) = self.part_raw(main, RelType::CommentsExtended, "word/commentsExtended.xml", CT_COMMENTS_EXTENDED, xml.as_str())?;
        proof {
            if old(self).spec_pkg().at(main).rels_part is Some {
                lemma_new_main_related(old(self).spec_pkg(), self.spec_pkg(), RelType::CommentsExtended, id);
            }
        }
        self.rebuild()?;
        Ok(id)
    }
}


/// Are the two byte strings equal?
fn bytes_eq(a: &Vec<u8>, b: &Vec<u8>) -> (r: bool)
    ensures
        r == (a@ == b@),
{
    if a.len() != b.len() {
        return false;
    }
    for i in 0..a.len()
        invariant
            a@.len() == b@.len(),
            forall|j: int| 0 <= j < i ==> a@[j] == b@[j],
    {
        if a[i] != b[i] {
            return false;
        }
    }
    assert(a@ =~= b@);
    true
}

/// A copy of a byte string.
fn copy_bytes(a: &Vec<u8>) -> (r: Vec<u8>)
    ensures
        r@ == a@,
{
    let mut r: Vec<u8> = Vec::new();
    for i in 0..a.len()
        invariant
            r@ == a@.take(i as int),
    {
        r.push(a[i]);
        assert(r@ =~= a@.take(i + 1));
    }
    assert(r@ =~= a@);
    r
}

/// The relationship id of the first medium (from `k` on) with media type `mime` and contents
/// `bytes`.
pub open spec fn media_hit(media: Seq<(Seq<char>, Seq<u8>, Seq<char>)>, mime: Seq<char>, bytes: Seq<u8>, k: int) -> Option<Seq<char>>
    decreases media.len() - k,
{
    if k < 0 || k >= media.len() {
        None
    } else if media[k].0 == mime && media[k].1 == bytes {
        Some(media[k].2)
    } else {
        media_hit(media, mime, bytes, k + 1)
    }
}

/// The entry-name prefix of media number `n`: `word/media/image<n>.`.
pub open spec fn media_stem(n: nat) -> Seq<char> {
    "word/media/image"@ + crate::text::spec_decimal(n) + "."@
}

/// Some part that is not deleted has an entry name starting with the stem of number `n`.
pub open spec fn media_number_taken(pkg: Package, n: nat) -> bool {
    exists|j: int| 0 <= j < pkg.parts@.len() && !(#[trigger] pkg.parts@[j]).deleted
        && crate::paths::strip(pkg.parts@[j].uri@, media_stem(n)) is Some
}

/// `s` without any number of leading `x-`.
pub open spec fn strip_x(s: Seq<char>) -> Seq<char>
    decreases s.len(),
{
    if s.len() >= 2 && s[0] == 'x' && s[1] == '-' {
        strip_x(s.skip(2))
    } else {
        s
    }
}

/// The file extension of a media type: the usual one for the common image types, else the
/// subtype without leading `x-`.
pub open spec fn extension_for_spec(mime: Seq<char>) -> Seq<char> {
    if mime == "image/png"@ {
        "png"@
    } else if mime == "image/jpeg"@ || mime == "image/jpg"@ {
        "jpg"@
    } else if mime == "image/gif"@ {
        "gif"@
    } else if mime == "image/bmp"@ {
        "bmp"@
    } else if mime == "image/tiff"@ {
        "tiff"@
    } else if mime == "image/svg+xml"@ {
        "svg"@
    } else {
        strip_x(crate::paths::file_name_of(mime))
    }
}

impl crate::content::NewImage {
    /// The file extension of a media type.
    pub fn extension_for(mime: &str) -> (r: String)
        ensures
            r@ == extension_for_spec(mime@),
    {
        if crate::chars::str_eq(mime, "image/png") {
            text("png")
        } else if crate::chars::str_eq(mime, "image/jpeg") || crate::chars::str_eq(mime, "image/jpg") {
            text("jpg")
        } else if crate::chars::str_eq(mime, "image/gif") {
            text("gif")
        } else if crate::chars::str_eq(mime, "image/bmp") {
            text("bmp")
        } else if crate::chars::str_eq(mime, "image/tiff") {
            text("tiff")
        } else if crate::chars::str_eq(mime, "image/svg+xml") {
            text("svg")
        } else {
            let last = crate::paths::file_name(mime);
            let cs = crate::chars::chars_of(last.as_str());
            let mut i: usize = 0;
            let n = cs.len();
            proof {
                assert(cs@.skip(0) =~= cs@);
            }
            while n >= 2 && i <= n - 2 && cs[i] == 'x' && cs[i + 1] == '-'
                invariant
                    cs@ == last@,
                    n == cs@.len(),
                    i <= cs@.len(),
                    strip_x(cs@) == strip_x(cs@.skip(i as int)),
                decreases cs@.len() - i,
            {
                proof {
                    assert(cs@.skip(i as int).skip(2) =~= cs@.skip(i + 2));
                }
                i = i + 2;
            }
            let r = crate::chars::string_of(&cs, i, n);
            assert(cs@.subrange(i as int, cs@.len() as int) =~= cs@.skip(i as int));
            r
        }
    }
}

/// Does some part (not deleted) have an entry name starting with `stem`?
fn stem_taken(pkg: &Package, stem: &str) -> (r: bool)
    ensures
        r == exists|j: int| 0 <= j < pkg.parts@.len() && !(#[trigger] pkg.parts@[j]).deleted
            && crate::paths::strip(pkg.parts@[j].uri@, stem@) is Some,
{
    for j in 0..pkg.parts.len()
        invariant
            forall|x: int| 0 <= x < j ==> !(!(#[trigger] pkg.parts@[x]).deleted && crate::paths::strip(pkg.parts@[x].uri@, stem@) is Some),
    {
        if !pkg.parts[j].deleted && crate::paths::strip_prefix(pkg.parts[j].uri.as_str(), stem).is_some() {
            return true;
        }
    }
    false
}

/// One entry name starts with the stem of at most one media number.
proof fn lemma_stem_unique(u: Seq<char>, n: nat, m: nat)
    requires
        crate::paths::strip(u, media_stem(n)) is Some,
        crate::paths::strip(u, media_stem(m)) is Some,
    ensures
        n == m,
{
    reveal_strlit("word/media/image");
    reveal_strlit(".");
    lemma_decimal_digits(n, 0);
    lemma_decimal_digits(m, 0);
    let dn = crate::text::spec_decimal(n);
    let dm = crate::text::spec_decimal(m);
    let a = media_stem(n);
    let b = media_stem(m);
    assert(a.len() == 16 + dn.len() + 1);
    assert(b.len() == 16 + dm.len() + 1);
    assert(u.take(a.len() as int) == a);
    assert(u.take(b.len() as int) == b);
    assert forall|i: int| 0 <= i < dn.len() && i < dm.len() implies dn[i] == dm[i] by {
        assert(a[16 + i] == dn[i]);
        assert(b[16 + i] == dm[i]);
        assert(u.take(a.len() as int)[16 + i] == u[16 + i]);
        assert(u.take(b.len() as int)[16 + i] == u[16 + i]);
    }
    if dn.len() < dm.len() {
        let i = dn.len() as int;
        assert(a[16 + i] == '.');
        assert(b[16 + i] == dm[i]);
        assert(u.take(a.len() as int)[16 + i] == u[16 + i]);
        assert(u.take(b.len() as int)[16 + i] == u[16 + i]);
        assert('0' <= dm[i] <= '9');
    } else if dm.len() < dn.len() {
        let i = dm.len() as int;
        assert(b[16 + i] == '.');
        assert(a[16 + i] == dn[i]);
        assert(u.take(a.len() as int)[16 + i] == u[16 + i]);
        assert(u.take(b.len() as int)[16 + i] == u[16 + i]);
        assert('0' <= dn[i] <= '9');
    } else {
        assert(dn =~= dm);
    }
}

/// A part whose entry name starts with the stem of media number `n`.
spec fn stem_holder(pkg: Package, n: nat) -> int {
    choose|j: int| 0 <= j < pkg.parts@.len() && !(#[trigger] pkg.parts@[j]).deleted
        && crate::paths::strip(pkg.parts@[j].uri@, media_stem(n)) is Some
}

/// Among the first `parts + 1` media numbers one is free: each part's entry name starts
/// with the stem of at most one of them.
proof fn lemma_media_number_free(pkg: Package)
    ensures
        exists|n: nat| 1 <= n <= pkg.parts@.len() + 1 && !#[trigger] media_number_taken(pkg, n),
{
    let len = pkg.parts@.len() as int;
    if forall|n: nat| 1 <= n <= len + 1 ==> #[trigger] media_number_taken(pkg, n) {
        let x = vstd::set_lib::set_int_range(1, len + 2);
        let f = |i: int| stem_holder(pkg, i as nat);
        vstd::set_lib::lemma_int_range(1, len + 2);
        vstd::set_lib::lemma_int_range(0, len);
        assert forall|i: int, k: int| x.contains(i) && x.contains(k) && #[trigger] f(i) == #[trigger] f(k) implies i == k by {
            assert(media_number_taken(pkg, i as nat));
            assert(media_number_taken(pkg, k as nat));
            let j = f(i);
            lemma_stem_unique(pkg.parts@[j].uri@, i as nat, k as nat);
        }
        assert(vstd::relations::injective_on(f, x));
        let y = x.map(f);
        vstd::set_lib::lemma_map_size(x, y, f);
        assert forall|j: int| y.contains(j) implies vstd::set_lib::set_int_range(0, len).contains(j) by {
            let i = choose|i: int| x.contains(i) && f(i) == j;
            assert(media_number_taken(pkg, i as nat));
        }
        vstd::set_lib::lemma_len_subset(y, vstd::set_lib::set_int_range(0, len));
        assert(false);
    }
}

/// The least media number whose stem no part uses.
pub open spec fn free_media_number(pkg: Package) -> nat {
    choose|n: nat| 1 <= n && !media_number_taken(pkg, n) && forall|m: nat| 1 <= m < n ==> #[trigger] media_number_taken(pkg, m)
}

/// A new media part of type `mime` can be added to the main part: its entry name (for
/// [`free_media_number`]) is new and the part can be related ([`part_addable`]).
pub open spec fn media_addable(pkg: Package, mime: Seq<char>) -> bool {
    part_addable(pkg, pkg.main, RelType::Image, media_stem(free_media_number(pkg)) + extension_for_spec(mime))
}

/// What adding `bytes` of type `mime` as a new media part did: the main part's relationship
/// list gained one `image` relationship, with id `rid`, to `word/media/image<N>.<ext>` for the
/// least number `N` whose stem no part used, and that part holds `bytes`.
pub open spec fn media_added(old_pkg: Package, new_pkg: Package, mime: Seq<char>, bytes: Seq<u8>, rid: Seq<char>) -> bool {
    let main = old_pkg.main;
    let rels0 = old_pkg.at(main).rels@;
    let rels = new_pkg.at(main).rels@;
    &&& new_pkg.main == main
    &&& rels.len() == rels0.len() + 1
    &&& rels.subrange(0, rels.len() - 1) == rels0
    &&& rels.last().id@ == rid
    &&& rels.last().kind == RelType::Image
    &&& next_rid_number(rels0) < 1_000_000_000 ==> forall|k: int| 0 <= k < rels0.len() ==> (#[trigger] rels0[k]).id@ != rid
    &&& exists|n: nat| #![trigger media_stem(n)] 1 <= n && !media_number_taken(old_pkg, n)
        && (forall|m: nat| 1 <= m < n ==> #[trigger] media_number_taken(old_pkg, m))
        && (rels.last().target matches RelTarget::Internal(t) && t@ == media_stem(n) + extension_for_spec(mime)
        && crate::package::find_from(old_pkg.parts@, t@, 0) is None
        && exists|id: PartId| new_pkg.has(id) && #[trigger] new_pkg.at(id).uri@ == t@ && new_pkg.at(id).bytes@ == bytes)
}

/// What `add_media` promises about the media table: equal contents of the same type seen
/// before give the id handed out then and change nothing; new contents make a media part
/// ([`media_added`]) and are recorded.
pub open spec fn media_done(s0: EditSession, s1: EditSession, bytes: Seq<u8>, mime: Seq<char>, r: Result<String, Error>) -> bool {
    &&& media_hit(s0.spec_media(), mime, bytes, 0) is Some ==> (r matches Ok(rid)
        && Some(rid@) == media_hit(s0.spec_media(), mime, bytes, 0) && s1 == s0)
    &&& media_hit(s0.spec_media(), mime, bytes, 0) is None ==> (r matches Ok(rid)
        ==> media_added(s0.spec_pkg(), s1.spec_pkg(), mime, bytes, rid@)
        && s1.spec_media() == s0.spec_media().push((mime, bytes, rid@)))
}

impl EditSession {
    /// Adds `bytes` as a media part of the main part (`word/media/image<N>.<ext>`, the first
    /// free `N`) with an `image` relationship and a `Default` content type; returns the
    /// relationship id. Equal contents of one media type added in this session share one
    /// part: the id handed out for them the first time is returned and nothing changes.
    pub fn add_media(&mut self, bytes: Vec<u8>, mime: &str) -> (r: Result<String, Error>)
        requires
            old(self).wf(),
            old(self).spec_pkg().parts@.len() + 8 < u32::MAX,
        ensures
            final(self).spec_pkg().wf(),
            r is Ok ==> final(self).wf(),
            media_done(*old(self), *final(self), bytes@, mime@, r),
            media_hit(old(self).spec_media(), mime@, bytes@, 0) is None && media_addable(old(self).spec_pkg(), mime@)
                && rels_room(final(self).spec_pkg(), old(self).spec_pkg().main)
                ==> (r is Ok <==> crate::document::projectable(final(self).spec_pkg())),
            old(self).spec_pkg().at(old(self).spec_pkg().main).rels_part matches Some(p) ==> final(self).spec_pkg().at(old(self).spec_pkg().main).rels_part == Some(p),
            old(self).spec_pkg().at(old(self).spec_pkg().main).rels_part is Some ==> (r is Ok ==> final(self).spec_pkg().parts@.len()
                == old(self).spec_pkg().parts@.len() + (if media_hit(old(self).spec_media(), mime@, bytes@, 0) is Some { 0int } else { 1int })),
            old(self).spec_pkg().at(old(self).spec_pkg().main).rels_part matches Some(rp) ==> (r is Ok ==> forall|j: int| 0 <= j < old(self).spec_pkg().parts@.len()
                && j != rp.0 && Some(PartId(j as u32)) != old(self).spec_pkg().content_types
                ==> (#[trigger] final(self).spec_pkg().parts@[j]).dom == old(self).spec_pkg().parts@[j].dom),
    {
        self.add_media_with(bytes, mime, true)
    }

    /// As [`EditSession::add_media`]; with `dedup == false` a new part is always made and
    /// the session's media table is left alone.
    pub fn add_media_with(&mut self, bytes: Vec<u8>, mime: &str, dedup: bool) -> (r: Result<String, Error>)
        requires
            old(self).wf(),
            old(self).spec_pkg().parts@.len() + 8 < u32::MAX,
        ensures
            final(self).spec_pkg().wf(),
            r is Ok ==> final(self).wf(),
            dedup && media_hit(old(self).spec_media(), mime@, bytes@, 0) is Some ==> (r matches Ok(rid)
                && Some(rid@) == media_hit(old(self).spec_media(), mime@, bytes@, 0) && *final(self) == *old(self)),
            !(dedup && media_hit(old(self).spec_media(), mime@, bytes@, 0) is Some) ==> (r matches Ok(rid)
                ==> media_added(old(self).spec_pkg(), final(self).spec_pkg(), mime@, bytes@, rid@)),
            !(dedup && media_hit(old(self).spec_media(), mime@, bytes@, 0) is Some) ==> (r matches Ok(rid)
                ==> final(self).spec_media() == (if dedup {
                    old(self).spec_media().push((mime@, bytes@, rid@))
                } else {
                    old(self).spec_media()
                })),
            !(dedup && media_hit(old(self).spec_media(), mime@, bytes@, 0) is Some) && media_addable(old(self).spec_pkg(), mime@)
                && rels_room(final(self).spec_pkg(), old(self).spec_pkg().main)
                ==> (r is Ok <==> crate::document::projectable(final(self).spec_pkg())),
            old(self).spec_pkg().at(old(self).spec_pkg().main).rels_part matches Some(p) ==> final(self).spec_pkg().at(old(self).spec_pkg().main).rels_part == Some(p),
            old(self).spec_pkg().at(old(self).spec_pkg().main).rels_part is Some ==> (r is Ok ==> final(self).spec_pkg().parts@.len()
                == old(self).spec_pkg().parts@.len() + (if dedup && media_hit(old(self).spec_media(), mime@, bytes@, 0) is Some { 0int } else { 1int })),
            old(self).spec_pkg().at(old(self).spec_pkg().main).rels_part matches Some(rp) ==> (r is Ok ==> forall|j: int| 0 <= j < old(self).spec_pkg().parts@.len()
                && j != rp.0 && Some(PartId(j as u32)) != old(self).spec_pkg().content_types
                ==> (#[trigger] final(self).spec_pkg().parts@[j]).dom == old(self).spec_pkg().parts@[j].dom),
    {
        if dedup {
            for i in 0..self.media.len()
                invariant
                    self.wf(),
                    dedup,
                    *self == *old(self),
                    media_hit(self.spec_media(), mime@, bytes@, 0) == media_hit(self.spec_media(), mime@, bytes@, i as int),
            {
                if crate::chars::str_eq(self.media[i].0.as_str(), mime) && bytes_eq(&self.media[i].1, &bytes) {
                    let rid = self.media[i].2.clone();
                    proof {
                        assert(self.spec_media()[i as int] == (self.media@[i as int].0@, self.media@[i as int].1@, self.media@[i as int].2@));
                        assert(self.spec_media()[i as int].0 == mime@);
                        assert(self.spec_media()[i as int].1 == bytes@);
                        assert(media_hit(self.spec_media(), mime@, bytes@, i as int) == Some(self.spec_media()[i as int].2));
                        assert(rid@ == self.spec_media()[i as int].2);
                        assert(media_hit(old(self).spec_media(), mime@, bytes@, 0) == Some(rid@));
                        assert(*self == *old(self));
                    }
                    return Ok(rid);
                }
                proof {
                    assert(self.spec_media()[i as int] == (self.media@[i as int].0@, self.media@[i as int].1@, self.media@[i as int].2@));
                }
            }
        }
        let ghost pkg0 = self.spec_pkg();
        let ext = crate::content::NewImage::extension_for(mime);
        let main = self.pkg.main_part();
        let limit = self.pkg.parts.len() + 1;
        let mut n: usize = 1;
        let mut found = false;
        while n <= limit && !found
            invariant
                self.wf(),
                *self == *old(self),
                pkg0 == self.spec_pkg(),
                self.spec_pkg().parts@.len() + 8 < u32::MAX,
                limit == self.pkg.parts@.len() + 1,
                1 <= n <= limit + 1,
                forall|m: nat| 1 <= m < n ==> #[trigger] media_number_taken(pkg0, m),
                found ==> !media_number_taken(pkg0, n as nat),
            decreases limit + 1 - n, (if found { 0int } else { 1int }),
        {
            let mut stem = text("word/media/image");
            stem.append(decimal(n as u64).as_str());
            stem.append(".");
            proof {
                reveal_strlit("word/media/image");
                reveal_strlit(".");
            }
            assert(stem@ == media_stem(n as nat));
            if stem_taken(&self.pkg, stem.as_str()) {
                n = n + 1;
            } else {
                found = true;
            }
        }
        proof {
            lemma_media_number_free(pkg0);
            if !found {
                let k = choose|k: nat| 1 <= k <= pkg0.parts@.len() + 1 && !#[trigger] media_number_taken(pkg0, k);
                assert(media_number_taken(pkg0, k));
            }
        }
        if !found {
            return Err(Error::edit(DiagCode::EditUnsupported, text("没有空闲的媒体编号")));
        }
        proof {
            let f = free_media_number(pkg0);
            assert(1 <= f && !media_number_taken(pkg0, f) && forall|m: nat| 1 <= m < f ==> #[trigger] media_number_taken(pkg0, m));
            if f < n {
                assert(media_number_taken(pkg0, f));
            } else if f > n {
                assert(media_number_taken(pkg0, n as nat));
            }
            assert(f == n);
        }
        let mut uri = text("word/media/image");
        uri.append(decimal(n as u64).as_str());
        uri.append(".");
        uri.append(ext.as_str());
        proof {
            reveal_strlit("word/media/image");
            reveal_strlit(".");
            assert(uri@ =~= media_stem(n as nat) + extension_for_spec(mime@));
        }
        let kept = if dedup { copy_bytes(&bytes) } else { Vec::new() };
        let ghost bytes0 = bytes@;
        let (id, rid) = self.add_binary_part(main, RelType::Image, uri.as_str(), mime, bytes)?;
        proof {
            assert(self.spec_pkg().at(id).uri@ == uri@);
            if next_rid_number(pkg0.at(main).rels@) < 1_000_000_000 {
                lemma_next_rel_id_fresh(pkg0.at(main).rels@);
            }
            assert(media_added(pkg0, self.spec_pkg(), mime@, bytes0, rid@));
        }
        let ghost p1 = self.spec_pkg();
        if dedup {
            let ghost m0 = self.spec_media();
            self.media.push((mime.to_string(), kept, rid.clone()));
            proof {
                assert(self.spec_media() =~= m0.push((mime@, bytes0, rid@)));
            }
        }
        assert(self.spec_pkg() == p1);
        assert(media_added(pkg0, self.spec_pkg(), mime@, bytes0, rid@));
        assert(pkg0 == old(self).spec_pkg());
        Ok(rid)
    }
}

} // verus!
