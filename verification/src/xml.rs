use vstd::prelude::*;

verus! {

/// Namespaces the engine knows by name.
#[derive(Debug, Clone, Copy, PartialEq, Eq, Structural)]
pub enum NsId {
    NoNamespace,
    W,
    R,
    A,
    Wp,
    Xml,
    Mc,
    Wps,
    V,
    W14,
    W15,
    Pic,
    C,
    ContentTypes,
    PackageRels,
    Other,
}

/// Local names the engine reads or writes; everything else is `Unknown`.
#[derive(Debug, Clone, Copy, PartialEq, Eq, Structural)]
pub enum LocalName {
    Unknown,
    Document,
    Body,
    P,
    R,
    T,
    Tab,
    Br,
    Cr,
    Type,
    DelText,
    InstrText,
    DelInstrText,
    Id,
    Author,
    Date,
    Hyperlink,
    Anchor,
    Tooltip,
    Ins,
    Del,
    MoveFrom,
    MoveTo,
    MoveFromRangeStart,
    RStyle,
    Chart,
    Title,
    Tx,
    Rich,
    BodyPr,
    LstStyle,
    Overlay,
    EndParaRPr,
    AnnotationRef,
    ParaId,
    MoveToRangeStart,
    FldChar,
    FldCharType,
    Dirty,
    Space,
    BookmarkStart,
    BookmarkEnd,
    Name,
    CommentRangeStart,
    CommentRangeEnd,
    CommentReference,
    RPr,
    PPr,
    SectPr,
    NumPr,
    RPrChange,
    PPrChange,
    SectPrChange,
    TblPrChange,
    TblPrExChange,
    TblGridChange,
    TrPrChange,
    TcPrChange,
    NumberingChange,
    Tbl,
    Tr,
    Tc,
    TblPr,
    TrPr,
    TcPr,
    TblPrEx,
    TblGrid,
    GridCol,
    GridSpan,
    GridBefore,
    GridAfter,
    VMerge,
    Val,
    W,
    HeaderReference,
    FooterReference,
    CellIns,
    CellDel,
    CellMerge,
    Headers,
    Drawing,
    Pict,
    Relationship,
    Relationships,
    Override,
    UDefault,
    UExtension,
    PartName,
    ContentType,
    UId,
    UType,
    Target,
    TargetMode,
    Types,
    AlternateContent,
    Choice,
    Fallback,
    Txbx,
    TxbxContent,
    Settings,
    RemovePersonalInformation,
    RemoveDateAndTime,
    ProofErr,
    TblStyle,
    TblW,
    TblLook,
    FirstRow,
    LastRow,
    FirstColumn,
    LastColumn,
    NoHBand,
    NoVBand,
    TblHeader,
    TcW,
    Blip,
    Embed,
    Link,
    SrcRect,
    FillRect,
    L,
    B,
    ExtLst,
    Ext,
    SvgBlip,
    Hdr,
    Ftr,
    Inline,
    Extent,
    EffectExtent,
    DocPr,
    CNvGraphicFramePr,
    Graphic,
    Xfrm,
    BlipFill,
    SolidFill,
    NoFill,
    GradFill,
    SrgbClr,
    WrapNone,
    WrapSquare,
    WrapTight,
    WrapThrough,
    WrapTopAndBottom,
    WrapPolygon,
    WrapText,
    Edited,
    Start,
    LineTo,
    X,
    Y,
    DistT,
    DistB,
    DistL,
    DistR,
    SimplePos,
    RelativeHeight,
    BehindDoc,
    Locked,
    LayoutInCell,
    AllowOverlap,
    PositionH,
    PositionV,
    RelativeFrom,
    PosOffset,
    Align,
    Rot,
    FlipH,
    FlipV,
    Cx,
    Cy,
    SpPr,
    Ln,
    Background,
    Color,
    Sym,
    Font,
    Char,
    Clear,
    FootnoteReference,
    EndnoteReference,
}

/// A namespace-qualified name.
#[derive(Debug, Clone, Copy, PartialEq, Eq, Structural)]
pub struct QName {
    pub ns: NsId,
    pub local: LocalName,
}

impl QName {
    pub fn new(ns: NsId, local: LocalName) -> (q: QName)
        ensures
            q == (QName { ns, local }),
    {
        QName { ns, local }
    }

    /// A name in the WordprocessingML main namespace.
    pub fn w(local: LocalName) -> (q: QName)
        ensures
            q == (QName { ns: NsId::W, local }),
    {
        QName { ns: NsId::W, local }
    }
}

/// A child of a new subtree.
#[derive(Debug, PartialEq, Eq)]
pub enum NewNode {
    Element(NewElement),
    Text(String),
}

/// A subtree that does not exist in any DOM yet.
#[derive(Debug, PartialEq, Eq)]
pub struct NewElement {
    pub name: QName,
    pub attrs: Vec<(QName, String)>,
    pub children: Vec<NewNode>,
}

impl Clone for NewElement {
    fn clone(&self) -> (r: NewElement)
        ensures
            element_same(*self, r),
    {
        self.copy()
    }
}

impl Clone for NewNode {
    fn clone(&self) -> (r: NewNode)
        ensures
            node_same(*self, r),
    {
        self.copy()
    }
}

/// Two attribute lists hold the same names and values in the same order.
pub open spec fn attrs_same(a: Seq<(QName, String)>, b: Seq<(QName, String)>) -> bool {
    &&& a.len() == b.len()
    &&& forall|i: int| 0 <= i < a.len() ==> a[i].0 == b[i].0 && a[i].1@ == b[i].1@
}

/// Structural equality of new subtrees (names, attribute order and values, children).
pub open spec fn element_same(a: NewElement, b: NewElement) -> bool
    decreases a,
{
    &&& a.name == b.name
    &&& attrs_same(a.attrs@, b.attrs@)
    &&& a.children.len() == b.children.len()
    &&& forall|i: int| 0 <= i < a.children.len() ==> node_same(a.children@[i], b.children@[i])
}

/// Structural equality of new nodes.
pub open spec fn node_same(a: NewNode, b: NewNode) -> bool
    decreases a,
{
    match (a, b) {
        (NewNode::Element(x), NewNode::Element(y)) => element_same(x, y),
        (NewNode::Text(x), NewNode::Text(y)) => x@ == y@,
        _ => false,
    }
}

/// `element_same` is reflexive.
pub proof fn lemma_element_same_refl(a: NewElement)
    ensures
        element_same(a, a),
    decreases a,
{
    assert forall|i: int| 0 <= i < a.children.len() implies node_same(
        a.children@[i],
        a.children@[i],
    ) by {
        lemma_node_same_refl(a.children@[i]);
    }
}

/// `node_same` is reflexive.
pub proof fn lemma_node_same_refl(a: NewNode)
    ensures
        node_same(a, a),
    decreases a,
{
    if let NewNode::Element(x) = a {
        lemma_element_same_refl(x);
    }
}

/// Copy of an attribute list.
pub fn copy_attrs(a: &Vec<(QName, String)>) -> (r: Vec<(QName, String)>)
    ensures
        attrs_same(a@, r@),
{
    let mut r: Vec<(QName, String)> = Vec::new();
    for i in 0..a.len()
        invariant
            r@.len() == i,
            forall|j: int| 0 <= j < i ==> a@[j].0 == r@[j].0 && a@[j].1@ == r@[j].1@,
    {
        let n = a[i].0;
        let v = a[i].1.clone();
        r.push((n, v));
    }
    r
}

/// Do two attribute lists hold the same names and values in the same order?
pub fn attrs_eq(a: &Vec<(QName, String)>, b: &Vec<(QName, String)>) -> (r: bool)
    ensures
        r == attrs_same(a@, b@),
{
    if a.len() != b.len() {
        return false;
    }
    for i in 0..a.len()
        invariant
            a@.len() == b@.len(),
            forall|j: int| 0 <= j < i ==> a@[j].0 == b@[j].0 && a@[j].1@ == b@[j].1@,
    {
        if a[i].0 != b[i].0 || a[i].1 != b[i].1 {
            return false;
        }
    }
    true
}

impl NewNode {
    /// Deep copy.
    pub fn copy(&self) -> (r: NewNode)
        ensures
            node_same(*self, r),
        decreases self,
    {
        match self {
            NewNode::Element(e) => NewNode::Element(e.copy()),
            NewNode::Text(t) => NewNode::Text(t.clone()),
        }
    }

    /// Structural comparison.
    pub fn same(&self, other: &NewNode) -> (r: bool)
        ensures
            r == node_same(*self, *other),
        decreases self,
    {
        match (self, other) {
            (NewNode::Element(x), NewNode::Element(y)) => x.same(y),
            (NewNode::Text(x), NewNode::Text(y)) => *x == *y,
            _ => false,
        }
    }
}

impl NewElement {
    /// An element with no attributes and no children.
    pub fn new(name: QName) -> (e: NewElement)
        ensures
            e.name == name,
            e.attrs@.len() == 0,
            e.children@.len() == 0,
    {
        NewElement { name, attrs: Vec::new(), children: Vec::new() }
    }

    /// Appends an attribute.
    pub fn push_attr(&mut self, name: QName, value: String)
        ensures
            final(self).name == old(self).name,
            final(self).attrs@ == old(self).attrs@.push((name, value)),
            final(self).children@ == old(self).children@,
    {
        self.attrs.push((name, value));
    }

    /// Builder form of [`Self::push_attr`].
    pub fn with_attr(self, name: QName, value: String) -> (e: NewElement)
        ensures
            e.name == self.name,
            e.attrs@ == self.attrs@.push((name, value)),
            e.children@ == self.children@,
    {
        let mut e = self;
        e.attrs.push((name, value));
        e
    }

    /// Appends an element child.
    pub fn push_child(&mut self, child: NewElement)
        ensures
            final(self).name == old(self).name,
            final(self).attrs@ == old(self).attrs@,
            final(self).children@ == old(self).children@.push(NewNode::Element(child)),
    {
        self.children.push(NewNode::Element(child));
    }

    /// Builder form of [`Self::push_child`].
    pub fn with_child(self, child: NewElement) -> (e: NewElement)
        ensures
            e.name == self.name,
            e.attrs@ == self.attrs@,
            e.children@ == self.children@.push(NewNode::Element(child)),
    {
        let mut e = self;
        e.children.push(NewNode::Element(child));
        e
    }

    /// Appends a text child.
    pub fn with_text(self, text: String) -> (e: NewElement)
        ensures
            e.name == self.name,
            e.attrs@ == self.attrs@,
            e.children@ == self.children@.push(NewNode::Text(text)),
    {
        let mut e = self;
        e.children.push(NewNode::Text(text));
        e
    }

    /// Deep copy.
    pub fn copy(&self) -> (r: NewElement)
        ensures
            element_same(*self, r),
        decreases self,
    {
        let attrs = copy_attrs(&self.attrs);
        let mut children: Vec<NewNode> = Vec::new();
        for i in 0..self.children.len()
            invariant
                children@.len() == i,
                forall|j: int| 0 <= j < i ==> node_same(self.children@[j], children@[j]),
        {
            let c = self.children[i].copy();
            children.push(c);
        }
        NewElement { name: self.name, attrs, children }
    }

    /// Structural comparison (attribute order counts).
    pub fn same(&self, other: &NewElement) -> (r: bool)
        ensures
            r == element_same(*self, *other),
        decreases self,
    {
        if self.name != other.name || !attrs_eq(&self.attrs, &other.attrs)
            || self.children.len() != other.children.len() {
            return false;
        }
        for i in 0..self.children.len()
            invariant
                self.children@.len() == other.children@.len(),
                forall|j: int| 0 <= j < i ==> node_same(self.children@[j], other.children@[j]),
        {
            if !self.children[i].same(&other.children[i]) {
                return false;
            }
        }
        true
    }
}

} // verus!
