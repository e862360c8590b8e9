use vstd::prelude::*;
use crate::chars::str_eq;
use crate::diag::{DiagCode, Diagnostic, Error, text};
use crate::dom::Dom;
use crate::ids::{NodeId, PartId};
use crate::plan::{MutationPlan, MutationResult};
use crate::text::{concat, decimal};

verus! {

/// Which namespace family a part is written in.
#[derive(Debug, Clone, Copy, PartialEq, Eq, Structural)]
pub enum PartFlavor {
    Transitional,
    Strict,
}

/// Relationship types the engine creates or follows.
#[derive(Debug, Clone, Copy, PartialEq, Eq, Structural)]
pub enum RelType {
    OfficeDocument,
    Styles,
    Settings,
    Comments,
    CommentsExtended,
    Footnotes,
    Endnotes,
    Header,
    Footer,
    Image,
    Hyperlink,
    Chart,
    Package,
    Other,
}

/// Where a relationship points: a part of the package (by entry name) or an external URI.
#[derive(Debug, Clone, PartialEq, Eq)]
pub enum RelTarget {
    Internal(String),
    External(String),
}

/// One relationship of a part, with the `Relationship` node that holds it in the `.rels` DOM.
#[derive(Debug, Clone, PartialEq, Eq)]
pub struct Relationship {
    pub id: String,
    pub kind: RelType,
    pub target: RelTarget,
    pub raw_type: String,
    pub node: NodeId,
}

/// One part of the package.
#[derive(Debug)]
pub struct Part {
    /// Entry name, without a leading `/` (`word/document.xml`).
    pub uri: String,
    pub content_type: String,
    /// Declared as XML by its content type.
    pub is_xml: bool,
    /// XML that could not be parsed: kept as bytes, not editable.
    pub opaque: bool,
    pub deleted: bool,
    /// The parsed tree of an XML part.
    pub dom: Option<Dom>,
    /// The bytes of a binary (or opaque) part.
    pub bytes: Vec<u8>,
    pub rels: Vec<Relationship>,
    /// The part's `.rels` part.
    pub rels_part: Option<PartId>,
    pub flavor: PartFlavor,
}

/// A package held in memory: its parts, the main document part, the `[Content_Types].xml`
/// part and the diagnostics raised on it.
#[derive(Debug)]
pub struct Package {
    pub parts: Vec<Part>,
    pub main: PartId,
    pub content_types: Option<PartId>,
    /// `Default` content types by extension.
    pub defaults: Vec<(String, String)>,
    /// `Override` content types by entry name.
    pub overrides: Vec<(String, String)>,
    pub diagnostics: Vec<Diagnostic>,
}

/// The first part at or after `i`, not deleted, whose entry name is `uri`.
pub open spec fn find_from(parts: Seq<Part>, uri: Seq<char>, i: int) -> Option<PartId>
    decreases parts.len() - i,
{
    if i < 0 || i >= parts.len() {
        None
    } else if !parts[i].deleted && parts[i].uri@ == uri {
        Some(PartId(i as u32))
    } else {
        find_from(parts, uri, i + 1)
    }
}

/// The part the first relationship of kind `kind` (from index `k` on) points to, among the
/// relationships `rels` whose internal target is a part of the package.
pub open spec fn related_from(parts: Seq<Part>, rels: Seq<Relationship>, kind: RelType, k: int) -> Option<PartId>
    decreases rels.len() - k,
{
    if k < 0 || k >= rels.len() {
        None
    } else if rels[k].kind == kind && rels[k].target is Internal && find_from(parts, rels[k].target->Internal_0@, 0) is Some {
        find_from(parts, rels[k].target->Internal_0@, 0)
    } else {
        related_from(parts, rels, kind, k + 1)
    }
}

pub proof fn lemma_find_in_range(parts: Seq<Part>, uri: Seq<char>, i: int)
    ensures
        find_from(parts, uri, i) matches Some(id) ==> (id.0 as int) < parts.len() && (id.0 as int) == id.0,
    decreases parts.len() - i,
{
    if 0 <= i < parts.len() && !(!parts[i].deleted && parts[i].uri@ == uri) {
        lemma_find_in_range(parts, uri, i + 1);
    }
}

pub proof fn lemma_related_in_range(parts: Seq<Part>, rels: Seq<Relationship>, kind: RelType, k: int)
    requires
        parts.len() < u32::MAX,
    ensures
        related_from(parts, rels, kind, k) matches Some(id) ==> (id.0 as int) < parts.len(),
    decreases rels.len() - k,
{
    if 0 <= k < rels.len() {
        if rels[k].kind == kind && rels[k].target is Internal {
            lemma_find_in_range(parts, rels[k].target->Internal_0@, 0);
        }
        lemma_related_in_range(parts, rels, kind, k + 1);
    }
}

impl Package {
    /// `id` names a part.
    pub open spec fn has(&self, id: PartId) -> bool {
        (id.0 as int) < self.parts@.len()
    }

    pub open spec fn at(&self, id: PartId) -> Part {
        self.parts@[id.0 as int]
    }

    /// Every tree is well formed and knows its part; the main part is parsed XML; every part
    /// id held in the package names a part; a new id still fits.
    pub open spec fn wf(&self) -> bool {
        &&& self.parts@.len() + 1 < u32::MAX
        &&& self.has(self.main)
        &&& self.at(self.main).dom is Some
        &&& self.content_types matches Some(c) ==> self.has(c)
        &&& forall|i: int| 0 <= i < self.parts@.len() ==> (#[trigger] self.parts@[i].dom matches Some(d)
            ==> d.wf() && d.part == PartId(i as u32))
        &&& forall|i: int| 0 <= i < self.parts@.len() ==> (#[trigger] self.parts@[i].rels_part matches Some(r)
            ==> (r.0 as int) < self.parts@.len())
    }

    /// A package whose only part is the main document part `uri`, parsed from `xml`.
    pub fn new(uri: &str, xml: &str) -> (r: Result<Package, Error>)
        ensures
            r is Ok <==> crate::parse::xml_tree(xml@) is Some,
            r matches Ok(p) ==> p.wf() && p.parts@.len() == 1 && p.main == PartId(0) && p.parts@[0].uri@ == uri@
                && p.content_types is None
                && (p.parts@[0].dom matches Some(d) && crate::parse::tree_view(d) == crate::parse::xml_tree(xml@)->0),
            r matches Err(e) ==> e.has_code(DiagCode::XmlNotWellFormed),
    {
        proof {
            vstd::utf8::encode_utf8_valid_utf8(xml@);
            vstd::utf8::encode_utf8_decode_utf8(xml@);
        }
        let dom = Dom::parse(PartId(0), xml.as_bytes())?;
        let part = Part {
            uri: uri.to_string(),
            content_type: text("application/vnd.openxmlformats-officedocument.wordprocessingml.document.main+xml"),
            is_xml: true,
            opaque: false,
            deleted: false,
            dom: Some(dom),
            bytes: Vec::new(),
            rels: Vec::new(),
            rels_part: None,
            flavor: PartFlavor::Transitional,
        };
        let mut parts: Vec<Part> = Vec::new();
        parts.push(part);
        Ok(Package {
            parts,
            main: PartId(0),
            content_types: None,
            defaults: Vec::new(),
            overrides: Vec::new(),
            diagnostics: Vec::new(),
        })
    }

    /// The main document part.
    pub fn main_part(&self) -> (r: PartId)
        ensures
            r == self.main,
    {
        self.main
    }

    /// The part `id`.
    pub fn part(&self, id: PartId) -> (r: &Part)
        requires
            self.has(id),
        ensures
            *r == self.at(id),
    {
        &self.parts[id.0 as usize]
    }

    /// The first part, not deleted, whose entry name is `uri`.
    pub fn find(&self, uri: &str) -> (r: Option<PartId>)
        requires
            self.parts@.len() < u32::MAX,
        ensures
            r == find_from(self.parts@, uri@, 0),
            r matches Some(id) ==> self.has(id) && self.at(id).uri@ == uri@ && !self.at(id).deleted,
    {
        for i in 0..self.parts.len()
            invariant
                find_from(self.parts@, uri@, 0) == find_from(self.parts@, uri@, i as int),
                self.parts@.len() < u32::MAX,
        {
            if !self.parts[i].deleted && str_eq(self.parts[i].uri.as_str(), uri) {
                return Some(PartId(i as u32));
            }
        }
        None
    }

    /// The part that `owner`'s first relationship of kind `kind` points to.
    pub fn related(&self, owner: PartId, kind: RelType) -> (r: Option<PartId>)
        requires
            self.has(owner),
            self.parts@.len() < u32::MAX,
        ensures
            r == related_from(self.parts@, self.at(owner).rels@, kind, 0),
            r matches Some(id) ==> self.has(id),
    {
        let rels = &self.parts[owner.0 as usize].rels;
        for k in 0..rels.len()
            invariant
                rels@ == self.at(owner).rels@,
                self.parts@.len() < u32::MAX,
                related_from(self.parts@, rels@, kind, 0) == related_from(self.parts@, rels@, kind, k as int),
        {
            if rels[k].kind == kind {
                if let RelTarget::Internal(u) = &rels[k].target {
                    if let Some(id) = self.find(u.as_str()) {
                        return Some(id);
                    }
                }
            }
        }
        None
    }

    /// The flavor of a part.
    pub fn flavor_of(&self, id: PartId) -> (r: PartFlavor)
        requires
            self.has(id),
        ensures
            r == self.at(id).flavor,
    {
        self.parts[id.0 as usize].flavor
    }

    /// The `[Content_Types].xml` part.
    pub fn content_types_part(&self) -> (r: Option<PartId>)
        ensures
            r == self.content_types,
    {
        self.content_types
    }

    /// The tree of an XML part (`None` for a binary or opaque part).
    pub fn dom(&self, id: PartId) -> (r: Option<&Dom>)
        requires
            self.has(id),
        ensures
            match self.at(id).dom {
                Some(d) => r == Some(&d),
                None => r is None,
            },
    {
        match &self.parts[id.0 as usize].dom {
            Some(d) => Some(d),
            None => None,
        }
    }

    /// Records diagnostics on the package.
    pub fn push_diagnostics(&mut self, diags: Vec<Diagnostic>)
        ensures
            final(self).diagnostics@ == old(self).diagnostics@ + diags@,
            final(self).parts == old(self).parts,
            final(self).main == old(self).main,
            final(self).content_types == old(self).content_types,
            final(self).defaults == old(self).defaults,
            final(self).overrides == old(self).overrides,
    {
        let mut diags = diags;
        self.diagnostics.append(&mut diags);
    }
}


impl Package {
    /// Validates `plan` against the tree of its part and commits it there. `EditPlanInvalid`
    /// when the part has no tree or the plan is invalid; nothing changes then.
    pub fn commit_plan(&mut self, plan: MutationPlan) -> (r: Result<MutationResult, Error>)
        requires
            old(self).wf(),
        ensures
            final(self).wf(),
            final(self).main == old(self).main,
            final(self).content_types == old(self).content_types,
            final(self).parts@.len() == old(self).parts@.len(),
            final(self).diagnostics@ == old(self).diagnostics@,
            forall|j: int| 0 <= j < old(self).parts@.len() && j != plan.part.0 ==> #[trigger] final(self).parts@[j] == old(self).parts@[j],
            final(self).defaults == old(self).defaults,
            final(self).overrides == old(self).overrides,
            old(self).has(plan.part) ==> final(self).at(plan.part).rels == old(self).at(plan.part).rels
                && final(self).at(plan.part).rels_part == old(self).at(plan.part).rels_part
                && final(self).at(plan.part).uri == old(self).at(plan.part).uri
                && final(self).at(plan.part).flavor == old(self).at(plan.part).flavor
                && final(self).at(plan.part).is_xml == old(self).at(plan.part).is_xml
                && final(self).at(plan.part).deleted == old(self).at(plan.part).deleted
                && final(self).at(plan.part).content_type == old(self).at(plan.part).content_type
                && final(self).at(plan.part).bytes == old(self).at(plan.part).bytes
                && (final(self).at(plan.part).dom is Some <==> old(self).at(plan.part).dom is Some),
            r is Ok <==> old(self).has(plan.part) && (old(self).at(plan.part).dom matches Some(d)
                && crate::edit::plan_valid(d, plan.node_edits@)),
            r is Err ==> final(self).parts@ == old(self).parts@,
            r matches Err(e) ==> e.has_code(DiagCode::EditPlanInvalid),
            r matches Ok(res) ==> old(self).at(plan.part).dom matches Some(d0)
                && final(self).at(plan.part).dom matches Some(d1)
                && crate::edit::grew(d0, d1)
                && res.created@.len() == plan.node_edits@.len()
                && (forall|k: int| 0 <= k < res.created@.len() ==> (#[trigger] res.created@[k] matches Some(n) ==> d1.has(n)))
                && crate::edit::applied(d0, plan.node_edits@, res.created@, d1)
                && (crate::edit::new_parents_are_elements(d0, plan.node_edits@) && d1.nodes@.len() + 2 < u32::MAX
                    ==> forall|k: int| 0 <= k < res.created@.len() ==> (#[trigger] res.created@[k] is Some
                    <==> plan.node_edits@[k].spec_creates()))
                && res.affected_blocks@ == plan.affected_blocks@
                && res.structure_changed == plan.structure_changed
                && res.diagnostics@ == plan.diagnostics@,
    {
        let i = plan.part.0 as usize;
        if i >= self.parts.len() {
            let mut msg = text("part#");
            msg.append(&decimal(plan.part.0 as u64));
            msg.append(" 不是 XML part");
            return Err(Error::edit(DiagCode::EditPlanInvalid, msg));
        }
        let ghost old_self = *self;
        let mut dom = match self.parts[i].dom.take() {
            Some(d) => d,
            None => {
                proof {
                    assert(self.parts@[i as int].dom is None);
                }
                let mut msg = text("part#");
                msg.append(&decimal(plan.part.0 as u64));
                msg.append(" 不是 XML part");
                assert(self.parts@ =~= old_self.parts@);
                return Err(Error::edit(DiagCode::EditPlanInvalid, msg));
            },
        };
        match plan.validate(&dom) {
            Ok(()) => {},
            Err(e) => {
                self.parts[i].dom = Some(dom);
                assert(self.parts@ =~= old_self.parts@);
                return Err(e);
            },
        }
        let result = plan.commit(&mut dom);
        self.parts[i].dom = Some(dom);
        Ok(result)
    }

    /// Replaces the content of part `id` with raw bytes: it has no tree afterwards.
    pub fn replace_part_bytes(&mut self, id: PartId, bytes: Vec<u8>)
        requires
            old(self).wf(),
            old(self).has(id),
            id != old(self).main,
        ensures
            final(self).wf(),
            final(self).main == old(self).main,
            final(self).content_types == old(self).content_types,
            final(self).parts@.len() == old(self).parts@.len(),
            final(self).diagnostics@ == old(self).diagnostics@,
            forall|j: int| 0 <= j < old(self).parts@.len() && j != id.0 ==> #[trigger] final(self).parts@[j] == old(self).parts@[j],
            final(self).at(id).dom is None,
            final(self).at(id).bytes@ == bytes@,
            final(self).at(id).uri == old(self).at(id).uri,
            final(self).at(id).rels == old(self).at(id).rels,
    {
        let i = id.0 as usize;
        self.parts[i].dom = None;
        self.parts[i].bytes = bytes;
        self.parts[i].opaque = false;
    }

    /// Replaces the tree of XML part `id` with `xml` parsed; `XmlNotWellFormed` (and no change)
    /// when it does not parse.
    pub fn replace_part_xml(&mut self, id: PartId, xml: &str) -> (r: Result<(), Error>)
        requires
            old(self).wf(),
            old(self).has(id),
        ensures
            final(self).wf(),
            final(self).main == old(self).main,
            final(self).content_types == old(self).content_types,
            final(self).parts@.len() == old(self).parts@.len(),
            final(self).diagnostics@ == old(self).diagnostics@,
            forall|j: int| 0 <= j < old(self).parts@.len() && j != id.0 ==> #[trigger] final(self).parts@[j] == old(self).parts@[j],
            r is Err ==> *final(self) == *old(self),
            r matches Err(e) ==> e.has_code(DiagCode::XmlNotWellFormed),
            r is Ok <==> crate::parse::xml_tree(xml@) is Some,
            r is Ok ==> (final(self).at(id).dom matches Some(d) && d.wf() && d.part == id && d.is_element(d.root)
                && d.at(d.root).parent is None && crate::parse::tree_view(d) == crate::parse::xml_tree(xml@)->0),
    {
        proof {
            vstd::utf8::encode_utf8_valid_utf8(xml@);
            vstd::utf8::encode_utf8_decode_utf8(xml@);
        }
        let dom = Dom::parse(id, xml.as_bytes())?;
        let i = id.0 as usize;
        self.parts[i].dom = Some(dom);
        self.parts[i].opaque = false;
        Ok(())
    }
}


/// The content type of a `.rels` part.
pub const CT_RELS: &'static str = "application/vnd.openxmlformats-package.relationships+xml";

/// The namespace of `.rels` parts.
pub const RELS_NS: &'static str = "http://schemas.openxmlformats.org/package/2006/relationships";

/// The last segment of a relationship type URI.
pub open spec fn rel_name(kind: RelType) -> Seq<char> {
    match kind {
        RelType::OfficeDocument => "officeDocument"@,
        RelType::Styles => "styles"@,
        RelType::Settings => "settings"@,
        RelType::Comments => "comments"@,
        RelType::CommentsExtended => "commentsExtended"@,
        RelType::Footnotes => "footnotes"@,
        RelType::Endnotes => "endnotes"@,
        RelType::Header => "header"@,
        RelType::Footer => "footer"@,
        RelType::Image => "image"@,
        RelType::Hyperlink => "hyperlink"@,
        RelType::Chart => "chart"@,
        RelType::Package => "package"@,
        RelType::Other => seq![],
    }
}

/// The relationship type URI of `kind` in a part of `flavor` (`None` for `Other`).
pub open spec fn rel_type_uri(kind: RelType, flavor: PartFlavor) -> Option<Seq<char>> {
    if kind == RelType::Other {
        None
    } else if kind == RelType::CommentsExtended {
        Some("http://schemas.microsoft.com/office/2011/relationships/commentsExtended"@)
    } else {
        match flavor {
            PartFlavor::Transitional => Some("http://schemas.openxmlformats.org/officeDocument/2006/relationships/"@ + rel_name(kind)),
            PartFlavor::Strict => Some("http://purl.oclc.org/ooxml/officeDocument/relationships/"@ + rel_name(kind)),
        }
    }
}

impl RelType {
    fn name(self) -> (r: &'static str)
        ensures
            r@ == rel_name(self),
    {
        match self {
            RelType::OfficeDocument => "officeDocument",
            RelType::Styles => "styles",
            RelType::Settings => "settings",
            RelType::Comments => "comments",
            RelType::CommentsExtended => "commentsExtended",
            RelType::Footnotes => "footnotes",
            RelType::Endnotes => "endnotes",
            RelType::Header => "header",
            RelType::Footer => "footer",
            RelType::Image => "image",
            RelType::Hyperlink => "hyperlink",
            RelType::Chart => "chart",
            RelType::Package => "package",
            RelType::Other => {
                proof {
                    reveal_strlit("");
                }
                ""
            },
        }
    }

    /// The relationship type URI in a part of `flavor`; `None` for `Other`.
    pub fn uri(self, flavor: PartFlavor) -> (r: Option<String>)
        ensures
            match rel_type_uri(self, flavor) {
                Some(u) => r matches Some(s) && s@ == u,
                None => r is None,
            },
    {
        if self == RelType::Other {
            return None;
        }
        if self == RelType::CommentsExtended {
            return Some(text("http://schemas.microsoft.com/office/2011/relationships/commentsExtended"));
        }
        let base = match flavor {
            PartFlavor::Transitional => "http://schemas.openxmlformats.org/officeDocument/2006/relationships/",
            PartFlavor::Strict => "http://purl.oclc.org/ooxml/officeDocument/relationships/",
        };
        Some(concat(base, self.name()))
    }
}

/// `b` is `a` with parts appended: every part of `a` is unchanged.
pub open spec fn parts_kept(a: Package, b: Package) -> bool {
    &&& a.parts@.len() <= b.parts@.len()
    &&& forall|j: int| 0 <= j < a.parts@.len() ==> #[trigger] b.parts@[j] == a.parts@[j]
}

impl Package {
    /// Registers a new XML part parsed from `xml`; `XmlNotWellFormed` (and no change) when it
    /// does not parse. The part has no relationships yet and the main part's flavor.
    pub fn register_new_part(&mut self, uri: &str, content_type: &str, xml: &str) -> (r: Result<PartId, Error>)
        requires
            old(self).wf(),
            old(self).parts@.len() + 2 < u32::MAX,
        ensures
            final(self).wf(),
            final(self).main == old(self).main,
            final(self).content_types == old(self).content_types,
            final(self).diagnostics@ == old(self).diagnostics@,
            final(self).defaults@ == old(self).defaults@,
            final(self).overrides@ == old(self).overrides@,
            parts_kept(*old(self), *final(self)),
            r is Err ==> final(self).parts@ == old(self).parts@,
            r matches Err(e) ==> e.has_code(DiagCode::XmlNotWellFormed),
            r is Ok <==> crate::parse::xml_tree(xml@) is Some,
            r matches Ok(id) ==> id == PartId(old(self).parts@.len() as u32)
                && final(self).parts@.len() == old(self).parts@.len() + 1
                && final(self).at(id).uri@ == uri@ && final(self).at(id).content_type@ == content_type@
                && final(self).at(id).is_xml && !final(self).at(id).deleted
                && (final(self).at(id).dom matches Some(d) && crate::parse::tree_view(d) == crate::parse::xml_tree(xml@)->0)
                && final(self).at(id).rels@.len() == 0 && final(self).at(id).rels_part is None,
    {
        proof {
            vstd::utf8::encode_utf8_valid_utf8(xml@);
            vstd::utf8::encode_utf8_decode_utf8(xml@);
        }
        let id = PartId(self.parts.len() as u32);
        let dom = Dom::parse(id, xml.as_bytes())?;
        let flavor = self.flavor_of(self.main);
        self.parts.push(Part {
            uri: uri.to_string(),
            content_type: content_type.to_string(),
            is_xml: true,
            opaque: false,
            deleted: false,
            dom: Some(dom),
            bytes: Vec::new(),
            rels: Vec::new(),
            rels_part: None,
            flavor,
        });
        Ok(id)
    }

    /// Registers a new XML part holding the tree `dom` (made for the next part id). The part
    /// has no relationships yet and the main part's flavor.
    pub fn register_new_tree(&mut self, uri: &str, content_type: &str, dom: Dom) -> (r: PartId)
        requires
            old(self).wf(),
            old(self).parts@.len() + 2 < u32::MAX,
            dom.wf(),
            dom.part == PartId(old(self).parts@.len() as u32),
        ensures
            final(self).wf(),
            final(self).main == old(self).main,
            final(self).content_types == old(self).content_types,
            final(self).diagnostics@ == old(self).diagnostics@,
            final(self).defaults@ == old(self).defaults@,
            final(self).overrides@ == old(self).overrides@,
            parts_kept(*old(self), *final(self)),
            r == PartId(old(self).parts@.len() as u32),
            final(self).parts@.len() == old(self).parts@.len() + 1,
            final(self).at(r).uri@ == uri@ && final(self).at(r).content_type@ == content_type@,
            final(self).at(r).is_xml && !final(self).at(r).deleted && final(self).at(r).dom == Some(dom),
            final(self).at(r).rels@.len() == 0 && final(self).at(r).rels_part is None,
    {
        let id = PartId(self.parts.len() as u32);
        let flavor = self.flavor_of(self.main);
        self.parts.push(Part {
            uri: uri.to_string(),
            content_type: content_type.to_string(),
            is_xml: true,
            opaque: false,
            deleted: false,
            dom: Some(dom),
            bytes: Vec::new(),
            rels: Vec::new(),
            rels_part: None,
            flavor,
        });
        id
    }

    /// Registers a new binary part holding `bytes`.
    pub fn register_new_binary_part(&mut self, uri: &str, content_type: &str, bytes: Vec<u8>) -> (r: PartId)
        requires
            old(self).wf(),
            old(self).parts@.len() + 2 < u32::MAX,
        ensures
            final(self).wf(),
            final(self).main == old(self).main,
            final(self).content_types == old(self).content_types,
            final(self).diagnostics@ == old(self).diagnostics@,
            final(self).defaults@ == old(self).defaults@,
            final(self).overrides@ == old(self).overrides@,
            parts_kept(*old(self), *final(self)),
            r == PartId(old(self).parts@.len() as u32),
            final(self).parts@.len() == old(self).parts@.len() + 1,
            final(self).at(r).uri@ == uri@ && final(self).at(r).content_type@ == content_type@,
            !final(self).at(r).is_xml && !final(self).at(r).deleted && final(self).at(r).dom is None,
            final(self).at(r).bytes@ == bytes@,
            final(self).at(r).rels@.len() == 0 && final(self).at(r).rels_part is None,
    {
        let id = PartId(self.parts.len() as u32);
        let flavor = self.flavor_of(self.main);
        self.parts.push(Part {
            uri: uri.to_string(),
            content_type: content_type.to_string(),
            is_xml: false,
            opaque: false,
            deleted: false,
            dom: None,
            bytes,
            rels: Vec::new(),
            rels_part: None,
            flavor,
        });
        id
    }

    /// Records `rels` as the `.rels` part of `part`.
    pub fn set_rels_part(&mut self, part: PartId, rels: PartId)
        requires
            old(self).wf(),
            old(self).has(part),
            old(self).has(rels),
        ensures
            final(self).wf(),
            final(self).main == old(self).main,
            final(self).content_types == old(self).content_types,
            final(self).diagnostics@ == old(self).diagnostics@,
            final(self).defaults@ == old(self).defaults@,
            final(self).overrides@ == old(self).overrides@,
            final(self).parts@.len() == old(self).parts@.len(),
            forall|j: int| 0 <= j < old(self).parts@.len() && j != part.0 ==> #[trigger] final(self).parts@[j] == old(self).parts@[j],
            final(self).at(part).rels_part == Some(rels),
            final(self).at(part).content_type == old(self).at(part).content_type,
            final(self).at(part).bytes == old(self).at(part).bytes,
            final(self).at(part).deleted == old(self).at(part).deleted,
            final(self).at(part).dom == old(self).at(part).dom,
            final(self).at(part).rels == old(self).at(part).rels,
            final(self).at(part).uri == old(self).at(part).uri,
            final(self).at(part).flavor == old(self).at(part).flavor,
    {
        let i = part.0 as usize;
        self.parts[i].rels_part = Some(rels);
    }

    /// Adds a relationship to the list of `part`.
    pub fn push_relationship(&mut self, part: PartId, rel: Relationship)
        requires
            old(self).wf(),
            old(self).has(part),
        ensures
            final(self).wf(),
            final(self).main == old(self).main,
            final(self).content_types == old(self).content_types,
            final(self).diagnostics@ == old(self).diagnostics@,
            final(self).defaults@ == old(self).defaults@,
            final(self).overrides@ == old(self).overrides@,
            final(self).parts@.len() == old(self).parts@.len(),
            forall|j: int| 0 <= j < old(self).parts@.len() && j != part.0 ==> #[trigger] final(self).parts@[j] == old(self).parts@[j],
            final(self).at(part).rels@ == old(self).at(part).rels@.push(rel),
            final(self).at(part).content_type == old(self).at(part).content_type,
            final(self).at(part).bytes == old(self).at(part).bytes,
            final(self).at(part).deleted == old(self).at(part).deleted,
            final(self).at(part).dom == old(self).at(part).dom,
            final(self).at(part).rels_part == old(self).at(part).rels_part,
            final(self).at(part).uri == old(self).at(part).uri,
            final(self).at(part).flavor == old(self).at(part).flavor,
    {
        let i = part.0 as usize;
        self.parts[i].rels.push(rel);
    }

    /// Records a `Default` content type.
    pub fn add_default(&mut self, ext: &str, content_type: &str)
        ensures
            final(self).defaults@.len() == old(self).defaults@.len() + 1,
            final(self).defaults@.last().0@ == ext@,
            final(self).defaults@.last().1@ == content_type@,
            final(self).parts == old(self).parts,
            final(self).main == old(self).main,
            final(self).content_types == old(self).content_types,
            final(self).diagnostics == old(self).diagnostics,
            final(self).overrides == old(self).overrides,
    {
        self.defaults.push((ext.to_string(), content_type.to_string()));
    }

    /// Records an `Override` content type.
    pub fn add_override(&mut self, uri: &str, content_type: &str)
        ensures
            final(self).overrides@.len() == old(self).overrides@.len() + 1,
            final(self).overrides@.last().0@ == uri@,
            final(self).overrides@.last().1@ == content_type@,
            final(self).parts == old(self).parts,
            final(self).main == old(self).main,
            final(self).content_types == old(self).content_types,
            final(self).diagnostics == old(self).diagnostics,
            final(self).defaults == old(self).defaults,
    {
        self.overrides.push((uri.to_string(), content_type.to_string()));
    }

    /// The recorded `Default` content type of an extension (ASCII case ignored).
    pub fn default_for_extension(&self, ext: &str) -> (r: Option<&String>)
        ensures
            r is Some <==> exists|i: int| 0 <= i < self.defaults@.len() && crate::paths::eq_ascii_ci(#[trigger] self.defaults@[i].0@, ext@),
    {
        for i in 0..self.defaults.len()
            invariant
                forall|j: int| 0 <= j < i ==> !crate::paths::eq_ascii_ci(#[trigger] self.defaults@[j].0@, ext@),
        {
            if crate::paths::eq_ignore_ascii_case(self.defaults[i].0.as_str(), ext) {
                return Some(&self.defaults[i].1);
            }
        }
        None
    }
}

} // verus!
