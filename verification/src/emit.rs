use vstd::prelude::*;
use crate::diag::{DiagCode, Diagnostic, ValidationOrigin};
use crate::ids::PartId;
use crate::text::{decimal, push_char, spec_decimal, trim, trimmed};
use crate::xml::{LocalName, NewElement, NewNode, NsId, QName, element_same};

verus! {

/// Revision metadata; `id == None` takes the emitter's next revision id.
#[derive(Debug, Clone, PartialEq, Eq)]
pub struct NewRevision {
    pub id: Option<String>,
    pub author: String,
    pub date: Option<String>,
}

/// A hyperlink target: an existing relationship `r:id`, or a bookmark `w:anchor`.
#[derive(Debug, Clone, PartialEq, Eq)]
pub enum NewLinkTarget {
    Rel(String),
    Anchor(String),
}

/// A new run: `props` is the complete `w:rPr` (`None` = no `rPr`).
#[derive(Debug, PartialEq, Eq)]
pub struct NewRun {
    pub text: String,
    pub props: Option<NewElement>,
}

impl NewRun {
    /// A run of plain text without properties.
    pub fn text(text: &str) -> (r: NewRun)
        ensures
            r.text@ == text@,
            r.props is None,
    {
        NewRun { text: text.to_string(), props: None }
    }
}

/// Range markers and comment references.
#[derive(Debug, Clone, PartialEq, Eq)]
pub enum NewMarker {
    BookmarkStart { id: String, name: String },
    BookmarkEnd { id: String },
    CommentRangeStart { id: String },
    CommentRangeEnd { id: String },
    /// `w:r/w:commentReference`.
    CommentReference { id: String },
}

/// New inline content.
#[derive(Debug, PartialEq, Eq)]
pub enum NewInline {
    Run(NewRun),
    Hyperlink { target: NewLinkTarget, tooltip: Option<String>, inlines: Vec<NewInline> },
    /// Wrapped in `w:ins`.
    Ins { rev: NewRevision, inlines: Vec<NewInline> },
    /// Wrapped in `w:del`: the text of the runs inside is written as `w:delText`.
    Del { rev: NewRevision, inlines: Vec<NewInline> },
    Marker(NewMarker),
    /// A complex field: begin / `w:instrText` / [separate / result] / end runs. Without
    /// `separate` neither the separator nor the result is written.
    Field {
        instr: String,
        result: Vec<NewInline>,
        separate: bool,
        /// `w:dirty="true"` on the begin `w:fldChar`.
        dirty: bool,
        /// `w:rPr` of the structural runs.
        props: Option<NewElement>,
    },
    /// Any inline fragment.
    Xml(NewElement),
}

impl NewInline {
    /// A complex field with a separator and a result.
    pub fn field(instr: &str, result: Vec<NewInline>) -> (r: NewInline)
        ensures
            r matches NewInline::Field { instr: i, result: res, separate, dirty, props }
                && i@ == instr@ && res == result && separate && !dirty && props is None,
    {
        NewInline::Field { instr: instr.to_string(), result, separate: true, dirty: false, props: None }
    }

    /// A field without a result part.
    pub fn marker_field(instr: &str) -> (r: NewInline)
        ensures
            r matches NewInline::Field { instr: i, result: res, separate, dirty, props }
                && i@ == instr@ && res@.len() == 0 && !separate && !dirty && props is None,
    {
        NewInline::Field { instr: instr.to_string(), result: Vec::new(), separate: false, dirty: false, props: None }
    }
}

/// One piece of a run's content after control characters are folded.
pub enum Piece {
    Text(Seq<char>),
    Tab,
    Br,
    PageBreak,
    ColumnBreak,
    Cr,
}

/// Characters that become elements of their own in a run.
pub open spec fn is_control(c: char) -> bool {
    c == '\t' || c == '\n' || c == '\r' || c == '\u{0B}' || c == '\u{0C}'
}

pub open spec fn control_piece(c: char) -> Piece {
    if c == '\t' {
        Piece::Tab
    } else if c == '\n' {
        Piece::Br
    } else if c == '\u{0C}' {
        Piece::PageBreak
    } else if c == '\u{0B}' {
        Piece::ColumnBreak
    } else {
        Piece::Cr
    }
}

pub open spec fn flushed(buf: Seq<char>) -> Seq<Piece> {
    if buf.len() == 0 {
        seq![]
    } else {
        seq![Piece::Text(buf)]
    }
}

/// The pieces of `cs`, `buf` being pending text before it.
pub open spec fn pieces_from(cs: Seq<char>, buf: Seq<char>) -> Seq<Piece>
    decreases cs.len(),
{
    if cs.len() == 0 {
        flushed(buf)
    } else if is_control(cs[0]) {
        flushed(buf) + seq![control_piece(cs[0])] + pieces_from(cs.drop_first(), seq![])
    } else {
        pieces_from(cs.drop_first(), buf.push(cs[0]))
    }
}

/// The pieces of a text: maximal runs of ordinary characters, and one piece per control
/// character.
pub open spec fn pieces(cs: Seq<char>) -> Seq<Piece> {
    pieces_from(cs, seq![])
}

pub open spec fn wq(l: LocalName) -> QName {
    QName { ns: NsId::W, local: l }
}

/// The attributes of a new `w:hyperlink`: `r:id` for a relationship target or `w:anchor`
/// for a bookmark, then `w:tooltip` when there is one.
pub open spec fn link_rendered(e: NewElement, target: NewLinkTarget, tooltip: Option<String>) -> bool {
    let first = match target {
        NewLinkTarget::Rel(rid) => (QName { ns: NsId::R, local: LocalName::Id }, rid@),
        NewLinkTarget::Anchor(a) => (QName { ns: NsId::W, local: LocalName::Anchor }, a@),
    };
    let views = e.attrs@.map_values(|x: (QName, String)| (x.0, x.1@));
    views == match tooltip {
        Some(t) => seq![first, (QName { ns: NsId::W, local: LocalName::Tooltip }, t@)],
        None => seq![first],
    }
}

pub open spec fn xml_space() -> QName {
    QName { ns: NsId::Xml, local: LocalName::Space }
}

pub open spec fn preserve() -> Seq<char> {
    seq!['p', 'r', 'e', 's', 'e', 'r', 'v', 'e']
}

/// An element with only a name.
pub open spec fn bare(e: NewElement, q: QName) -> bool {
    e.name == q && e.attrs@.len() == 0 && e.children@.len() == 0
}

/// An element with a name and one attribute.
pub open spec fn one_attr(e: NewElement, q: QName, a: QName, v: Seq<char>) -> bool {
    e.name == q && e.attrs@.len() == 1 && e.attrs@[0].0 == a && e.attrs@[0].1@ == v
        && e.children@.len() == 0
}

/// `w:t` (or `w:delText`) with `xml:space="preserve"` holding `t`.
pub open spec fn is_text_element(e: NewElement, deleted: bool, t: Seq<char>) -> bool {
    &&& e.name == wq(if deleted { LocalName::DelText } else { LocalName::T })
    &&& e.attrs@.len() == 1
    &&& e.attrs@[0].0 == xml_space()
    &&& e.attrs@[0].1@ == preserve()
    &&& e.children@.len() == 1
    &&& e.children@[0] matches NewNode::Text(x) && x@ == t
}

pub open spec fn page() -> Seq<char> {
    seq!['p', 'a', 'g', 'e']
}

pub open spec fn column() -> Seq<char> {
    seq!['c', 'o', 'l', 'u', 'm', 'n']
}

/// The element written for a piece.
pub open spec fn renders(e: NewElement, p: Piece, deleted: bool) -> bool {
    match p {
        Piece::Text(t) => is_text_element(e, deleted, t),
        Piece::Tab => bare(e, wq(LocalName::Tab)),
        Piece::Br => bare(e, wq(LocalName::Br)),
        Piece::PageBreak => one_attr(e, wq(LocalName::Br), wq(LocalName::Type), page()),
        Piece::ColumnBreak => one_attr(e, wq(LocalName::Br), wq(LocalName::Type), column()),
        Piece::Cr => bare(e, wq(LocalName::Cr)),
    }
}

/// `out` renders `ps` one element per piece.
pub open spec fn renders_all(out: Seq<NewElement>, ps: Seq<Piece>, deleted: bool) -> bool {
    out.len() == ps.len() && forall|i: int| 0 <= i < ps.len() ==> renders(#[trigger] out[i], ps[i], deleted)
}

/// The attributes of a revision wrapper: `w:id` (the given id, or `next` when there is
/// none), `w:author` and, when there is one, `w:date`.
pub open spec fn revision_attrs_are(a: Seq<(QName, String)>, rev: NewRevision, next: u32) -> bool {
    &&& a.len() == 2 + (if rev.date is Some { 1int } else { 0int })
    &&& a[0].0 == wq(LocalName::Id)
    &&& a[0].1@ == match rev.id {
        Some(id) => id@,
        None => spec_decimal(next as nat),
    }
    &&& a[1].0 == wq(LocalName::Author)
    &&& a[1].1@ == rev.author@
    &&& rev.date matches Some(d) ==> a[2].0 == wq(LocalName::Date) && a[2].1@ == d@
}

/// Each run of `inlines` is written, at its place among `out` from `at` on, as a `w:r` with
/// its text (`w:delText` when `deleted`).
pub open spec fn runs_render(out: Seq<NewElement>, at: int, inlines: Seq<NewInline>, deleted: bool) -> bool {
    forall|j: int| #![trigger inlines[j]] 0 <= j < inlines.len() ==> (inlines[j] matches NewInline::Run(r)
        ==> run_renders(out[at + emitted_list(inlines.take(j))], r.text@, r.props, deleted))
}

/// Each run of `inlines` is written, at its place among the children of `e`, as a `w:r` with
/// its text (`w:delText` when `deleted`).
pub open spec fn runs_render_in(e: NewElement, inlines: Seq<NewInline>, deleted: bool) -> bool {
    forall|j: int| #![trigger inlines[j]] 0 <= j < inlines.len() ==> (inlines[j] matches NewInline::Run(r)
        ==> (e.children@[emitted_list(inlines.take(j)) as int] matches NewNode::Element(x)
        && run_renders(x, r.text@, r.props, deleted)))
}

/// A `w:r` with optional properties (a copy of `props`) followed by the pieces of `t`.
pub open spec fn run_renders(e: NewElement, t: Seq<char>, props: Option<NewElement>, deleted: bool) -> bool {
    let off: int = if props is Some { 1 } else { 0 };
    let ps = pieces(t);
    &&& e.name == wq(LocalName::R)
    &&& e.attrs@.len() == 0
    &&& e.children@.len() == off + ps.len()
    &&& (props matches Some(p) ==> e.children@[0] matches NewNode::Element(x) && element_same(p, x))
    &&& forall|k: int| 0 <= k < ps.len() ==> (#[trigger] e.children@[off + k] matches NewNode::Element(x)
        && renders(x, ps[k], deleted))
}

/// An element `q` with the single attribute `w:id`.
pub open spec fn id_marker(e: NewElement, q: QName, id: Seq<char>) -> bool {
    one_attr(e, q, wq(LocalName::Id), id)
}

/// The element written for a marker.
pub open spec fn marker_renders(e: NewElement, m: NewMarker) -> bool {
    match m {
        NewMarker::BookmarkStart { id, name } => {
            &&& e.name == wq(LocalName::BookmarkStart)
            &&& e.attrs@.len() == 2
            &&& e.attrs@[0].0 == wq(LocalName::Id) && e.attrs@[0].1@ == id@
            &&& e.attrs@[1].0 == wq(LocalName::Name) && e.attrs@[1].1@ == name@
            &&& e.children@.len() == 0
        },
        NewMarker::BookmarkEnd { id } => id_marker(e, wq(LocalName::BookmarkEnd), id@),
        NewMarker::CommentRangeStart { id } => id_marker(e, wq(LocalName::CommentRangeStart), id@),
        NewMarker::CommentRangeEnd { id } => id_marker(e, wq(LocalName::CommentRangeEnd), id@),
        NewMarker::CommentReference { id } => {
            &&& e.name == wq(LocalName::R)
            &&& e.attrs@.len() == 0
            &&& e.children@.len() == 1
            &&& e.children@[0] matches NewNode::Element(x) && id_marker(x, wq(LocalName::CommentReference), id@)
        },
    }
}

/// XML 1.0 characters, plus the two control characters that become `w:br`.
pub open spec fn allowed(c: char) -> bool {
    let u = c as u32;
    c == '\t' || c == '\n' || c == '\r' || c == '\u{0B}' || c == '\u{0C}'
        || (0x20 <= u && u <= 0xD7FF) || (0xE000 <= u && u <= 0xFFFD) || u >= 0x10000
}

/// The allowed characters of `cs`, in order.
pub open spec fn kept(cs: Seq<char>) -> Seq<char>
    decreases cs.len(),
{
    if cs.len() == 0 {
        seq![]
    } else if allowed(cs.last()) {
        kept(cs.drop_last()).push(cs.last())
    } else {
        kept(cs.drop_last())
    }
}

/// How many characters of `cs` are not allowed.
pub open spec fn removed(cs: Seq<char>) -> nat
    decreases cs.len(),
{
    if cs.len() == 0 {
        0
    } else if allowed(cs.last()) {
        removed(cs.drop_last())
    } else {
        removed(cs.drop_last()) + 1
    }
}

/// How many revisions inside `i` take their id from the emitter.
pub open spec fn auto_ids(i: NewInline) -> nat
    decreases i,
{
    match i {
        NewInline::Hyperlink { inlines, .. } => auto_ids_list(inlines@),
        NewInline::Ins { rev, inlines } | NewInline::Del { rev, inlines } => (if rev.id is None {
            1nat
        } else {
            0nat
        }) + auto_ids_list(inlines@),
        NewInline::Field { result, separate, .. } => if separate {
            auto_ids_list(result@)
        } else {
            0
        },
        _ => 0,
    }
}

pub open spec fn auto_ids_list(s: Seq<NewInline>) -> nat
    decreases s,
{
    if s.len() == 0 {
        0
    } else {
        auto_ids_list(s.subrange(0, s.len() - 1)) + auto_ids(s[s.len() - 1])
    }
}

/// How many top-level elements `i` is written as.
pub open spec fn emitted(i: NewInline) -> nat
    decreases i,
{
    match i {
        NewInline::Field { result, separate, .. } => if separate {
            4 + emitted_list(result@)
        } else {
            3
        },
        _ => 1,
    }
}

pub open spec fn emitted_list(s: Seq<NewInline>) -> nat
    decreases s,
{
    if s.len() == 0 {
        0
    } else {
        emitted_list(s.subrange(0, s.len() - 1)) + emitted(s[s.len() - 1])
    }
}

/// A prefix of a list is written as no more elements than the whole list.
proof fn lemma_emitted_prefix_le(s: Seq<NewInline>, k: int)
    requires
        0 <= k <= s.len(),
    ensures
        emitted_list(s.take(k)) <= emitted_list(s),
    decreases s.len(),
{
    if k < s.len() {
        assert(s.subrange(0, s.len() - 1) =~= s.drop_last());
        assert(s.drop_last().take(k) =~= s.take(k));
        lemma_emitted_prefix_le(s.drop_last(), k);
        assert(s.take(s.len() as int) =~= s);
    } else {
        assert(s.take(k) =~= s);
    }
}

/// Runs written into `ks` and appended as the children of `e` keep their places.
proof fn lemma_runs_in(e: NewElement, ks: Seq<NewElement>, inlines: Seq<NewInline>, deleted: bool)
    requires
        e.children@.len() == ks.len(),
        ks.len() == emitted_list(inlines),
        forall|j: int| 0 <= j < ks.len() ==> e.children@[j] == NewNode::Element(#[trigger] ks[j]),
        runs_render(ks, 0, inlines, deleted),
    ensures
        runs_render_in(e, inlines, deleted),
{
    assert forall|j: int| #![trigger inlines[j]] 0 <= j < inlines.len() implies (inlines[j] matches NewInline::Run(r)
        ==> (e.children@[emitted_list(inlines.take(j)) as int] matches NewNode::Element(x)
        && run_renders(x, r.text@, r.props, deleted))) by {
        if inlines[j] is Run {
            let k = emitted_list(inlines.take(j)) as int;
            let x = inlines.take(j + 1);
            lemma_emitted_prefix_le(inlines, j + 1);
            assert(x.subrange(0, j) =~= inlines.take(j));
            assert(x[j] == inlines[j]);
            assert(emitted(x[j]) == 1);
            assert(emitted_list(x) == k + 1);
            assert(ks[0 + k] == ks[k]);
        }
    }
}

pub proof fn lemma_auto_ids_prefix(s: Seq<NewInline>, j: int)
    requires
        0 <= j <= s.len(),
    ensures
        auto_ids_list(s.take(j)) <= auto_ids_list(s),
        j < s.len() ==> auto_ids_list(s.take(j + 1)) == auto_ids_list(s.take(j)) + auto_ids(s[j]),
        j < s.len() ==> emitted_list(s.take(j + 1)) == emitted_list(s.take(j)) + emitted(s[j]),
    decreases s.len() - j,
{
    if j < s.len() {
        assert(s.take(j + 1).subrange(0, j) =~= s.take(j));
        assert(s.take(j + 1)[j] == s[j]);
        lemma_auto_ids_prefix(s, j + 1);
    } else {
        assert(s.take(j) =~= s);
    }
}

/// Writes new content, giving revisions without an id consecutive ids from
/// `next_revision_id` on.
pub struct Emitter {
    pub next_revision_id: u32,
}

impl Emitter {
    pub fn new(next_revision_id: u32) -> (e: Emitter)
        ensures
            e.next_revision_id == next_revision_id,
    {
        Emitter { next_revision_id }
    }

    /// `w:id` / `w:author` / `w:date` of a revision wrapper.
    fn revision_attrs(&mut self, e: &mut NewElement, rev: &NewRevision)
        requires
            rev.id is None ==> old(self).next_revision_id < u32::MAX,
        ensures
            final(e).name == old(e).name,
            final(e).children@ == old(e).children@,
            final(e).attrs@.len() == old(e).attrs@.len() + 2 + (if rev.date is Some { 1int } else { 0 }),
            forall|i: int| 0 <= i < old(e).attrs@.len() ==> final(e).attrs@[i] == old(e).attrs@[i],
            final(e).attrs@[old(e).attrs@.len() as int].0 == wq(LocalName::Id),
            match rev.id {
                Some(id) => final(e).attrs@[old(e).attrs@.len() as int].1@ == id@
                    && final(self).next_revision_id == old(self).next_revision_id,
                None => final(e).attrs@[old(e).attrs@.len() as int].1@ == spec_decimal(old(self).next_revision_id as nat)
                    && final(self).next_revision_id == old(self).next_revision_id + 1,
            },
            final(e).attrs@[old(e).attrs@.len() + 1int].0 == wq(LocalName::Author),
            final(e).attrs@[old(e).attrs@.len() + 1int].1@ == rev.author@,
            rev.date matches Some(d) ==> final(e).attrs@[old(e).attrs@.len() + 2int].0 == wq(LocalName::Date)
                && final(e).attrs@[old(e).attrs@.len() + 2int].1@ == d@,
    {
        let id = match &rev.id {
            Some(id) => id.clone(),
            None => {
                let id = self.next_revision_id;
                self.next_revision_id = self.next_revision_id + 1;
                decimal(id as u64)
            },
        };
        e.push_attr(QName::w(LocalName::Id), id);
        e.push_attr(QName::w(LocalName::Author), rev.author.clone());
        if let Some(d) = &rev.date {
            e.push_attr(QName::w(LocalName::Date), d.clone());
        }
    }

    /// XML 1.0 characters, plus `\u{0B}` / `\u{0C}` (they become `w:br`).
    pub fn is_allowed_char(c: char) -> (r: bool)
        ensures
            r == allowed(c),
    {
        let u = c as u32;
        c == '\t' || c == '\n' || c == '\r' || c == '\u{0B}' || c == '\u{0C}'
            || (0x20 <= u && u <= 0xD7FF) || (0xE000 <= u && u <= 0xFFFD) || u >= 0x10000
    }

    /// The text without the characters XML cannot hold; when any was dropped, one
    /// `EditBadText` diagnostic is recorded.
    pub fn sanitize_text(text: &str, part: PartId, diags: &mut Vec<Diagnostic>) -> (r: String)
        ensures
            r@ == kept(text@),
            removed(text@) == 0 ==> final(diags)@ == old(diags)@,
            removed(text@) > 0 ==> {
                &&& final(diags)@.len() == old(diags)@.len() + 1
                &&& final(diags)@.subrange(0, old(diags)@.len() as int) == old(diags)@
                &&& final(diags)@.last().part == part
                &&& final(diags)@.last().range is None
                &&& final(diags)@.last().code == DiagCode::EditBadText
                &&& final(diags)@.last().origin == ValidationOrigin::EngineInvariantViolation
                &&& final(diags)@.last().message@ == "文本含 "@ + spec_decimal(removed(text@)) + " 个 XML 非法字符，已剔除"@
            },
    {
        let mut out = String::new();
        let mut count: u64 = 0;
        let ghost cs = text@;
        let nbytes = crate::utf16::byte_len(text);
        for c in it: text.chars()
            invariant
                it.seq() == cs,
                cs == text@,
                out@ == kept(cs.take(it.index() as int)),
                count == removed(cs.take(it.index() as int)),
                count <= it.index(),
                it.index() <= cs.len(),
                cs.len() <= nbytes,
        {
            let ghost i = it.index() as int;
            assert(cs.take(i + 1).drop_last() =~= cs.take(i));
            assert(cs.take(i + 1).last() == c);
            if Self::is_allowed_char(c) {
                push_char(&mut out, c);
            } else {
                count = count + 1;
            }
        }
        assert(cs.take(cs.len() as int) =~= cs);
        if count > 0 {
            let mut msg = crate::diag::text("文本含 ");
            msg.append(&decimal(count));
            msg.append(" 个 XML 非法字符，已剔除");
            diags.push(Diagnostic::invariant_violation(part, None, DiagCode::EditBadText, msg));
        }
        out
    }

    /// Does the text hold a character that has to become an element of its own?
    pub fn has_control_chars(text: &str) -> (r: bool)
        ensures
            r == exists|i: int| 0 <= i < text@.len() && is_control(#[trigger] text@[i]),
    {
        for c in it: text.chars()
            invariant
                it.seq() == text@,
                forall|i: int| 0 <= i < it.index() ==> !is_control(#[trigger] text@[i]),
        {
            assert(c == text@[it.index() as int]);
            if c == '\t' || c == '\n' || c == '\r' || c == '\u{0B}' || c == '\u{0C}' {
                return true;
            }
        }
        false
    }

    /// `w:t` (`w:delText` when deleted) with `xml:space="preserve"` around `text`.
    pub fn text_element(deleted: bool, text: &str) -> (e: NewElement)
        ensures
            is_text_element(e, deleted, text@),
    {
        let name = if deleted { LocalName::DelText } else { LocalName::T };
        let p = crate::diag::text("preserve");
        proof {
            reveal_strlit("preserve");
            assert(p@ =~= preserve());
        }
        NewElement::new(QName::w(name)).with_attr(QName::new(NsId::Xml, LocalName::Space), p).with_text(
            text.to_string(),
        )
    }

    /// Appends the pending text, if any, as one text element.
    fn flush(buf: String, out: &mut Vec<NewElement>, deleted: bool)
        ensures
            final(out)@ == old(out)@ + seq_of_text(buf@, final(out)@),
            buf@.len() > 0 ==> is_text_element(final(out)@.last(), deleted, buf@),
            renders_all(final(out)@.subrange(old(out)@.len() as int, final(out)@.len() as int), flushed(buf@), deleted),
    {
        if !buf.as_str().is_empty() {
            let e = Self::text_element(deleted, buf.as_str());
            out.push(e);
            assert(final_part(out@, old(out)@.len()) =~= seq![out@.last()]);
        } else {
            assert(final_part(out@, old(out)@.len()) =~= Seq::<NewElement>::empty());
        }
    }

    /// The children of a run for `text` (without `rPr`): one text element per stretch of
    /// ordinary characters, and `w:tab`, `w:br`, `w:br w:type="page"`, `w:br w:type="column"`,
    /// `w:cr` for `\t`, `\n`, `\u{0C}`, `\u{0B}`, `\r`.
    pub fn text_segments(text: &str, deleted: bool) -> (out: Vec<NewElement>)
        ensures
            renders_all(out@, pieces(text@), deleted),
    {
        let mut out: Vec<NewElement> = Vec::new();
        let mut buf = String::new();
        let ghost cs = text@;
        let ghost mut g: Seq<Piece> = seq![];
        proof {
            assert(cs.skip(0) =~= cs);
        }
        for c in it: text.chars()
            invariant
                it.seq() == cs,
                cs == text@,
                renders_all(out@, g, deleted),
                g + pieces_from(cs.skip(it.index() as int), buf@) == pieces(cs),
                it.index() <= cs.len(),
        {
            let ghost i = it.index() as int;
            let ghost rest = cs.skip(i);
            proof {
                assert(rest[0] == c);
                assert(rest.drop_first() =~= cs.skip(i + 1));
            }
            if c == '\t' || c == '\n' || c == '\u{0C}' || c == '\u{0B}' || c == '\r' {
                let ghost before = out@;
                let taken = buf;
                buf = String::new();
                Self::flush(taken, &mut out, deleted);
                let e = if c == '\t' {
                    NewElement::new(QName::w(LocalName::Tab))
                } else if c == '\n' {
                    NewElement::new(QName::w(LocalName::Br))
                } else if c == '\u{0C}' {
                    let v = crate::diag::text("page");
                    proof {
                        reveal_strlit("page");
                        assert(v@ =~= page());
                    }
                    NewElement::new(QName::w(LocalName::Br)).with_attr(QName::w(LocalName::Type), v)
                } else if c == '\u{0B}' {
                    let v = crate::diag::text("column");
                    proof {
                        reveal_strlit("column");
                        assert(v@ =~= column());
                    }
                    NewElement::new(QName::w(LocalName::Br)).with_attr(QName::w(LocalName::Type), v)
                } else {
                    NewElement::new(QName::w(LocalName::Cr))
                };
                let ghost mid = out@;
                out.push(e);
                proof {
                    let ng = g + flushed(taken@) + seq![control_piece(c)];
                    assert(renders(e, control_piece(c), deleted));
                    assert forall|j: int| 0 <= j < ng.len() implies renders(#[trigger] out@[j], ng[j], deleted) by {
                        if j < g.len() {
                            assert(out@[j] == before[j]);
                        } else if j < g.len() + flushed(taken@).len() {
                            let sub = mid.subrange(before.len() as int, mid.len() as int);
                            assert(out@[j] == sub[j - before.len()]);
                        }
                    }
                    assert(ng + pieces_from(cs.skip(i + 1), seq![]) =~= g + pieces_from(rest, taken@));
                    g = ng;
                }
                assert(buf@ =~= Seq::<char>::empty());
            } else {
                push_char(&mut buf, c);
            }
        }
        proof {
            assert(cs.skip(cs.len() as int) =~= Seq::<char>::empty());
        }
        let ghost before = out@;
        let taken = buf;
        Self::flush(taken, &mut out, deleted);
        proof {
            let ng = g + flushed(taken@);
            assert forall|j: int| 0 <= j < ng.len() implies renders(#[trigger] out@[j], ng[j], deleted) by {
                if j < g.len() {
                    assert(out@[j] == before[j]);
                } else {
                    let sub = out@.subrange(before.len() as int, out@.len() as int);
                    assert(out@[j] == sub[j - before.len()]);
                }
            }
            assert(ng =~= pieces(cs));
        }
        out
    }

    /// `w:r`: a copy of `props`, then the text pieces.
    pub fn new_run(text: &str, props: Option<&NewElement>, deleted: bool) -> (r: NewElement)
        ensures
            run_renders(r, text@, match props { Some(p) => Some(*p), None => None }, deleted),
    {
        let mut r = NewElement::new(QName::w(LocalName::R));
        let ghost off: int = if props is Some { 1 } else { 0 };
        if let Some(p) = props {
            r.push_child(p.copy());
        }
        let segs = Self::text_segments(text, deleted);
        let ghost ps = pieces(text@);
        let ghost r0 = r;
        assert(props matches Some(pp) ==> r0.children@[0] matches NewNode::Element(x) && element_same(*pp, x));
        let mut k: usize = 0;
        let mut segs = segs;
        let mut rest: Vec<NewElement> = Vec::new();
        let n = segs.len();
        // keep the pieces in order: move them out back to front, then push them front to back
        while segs.len() > 0
            invariant
                n == ps.len(),
                segs@.len() + rest@.len() == n,
                forall|j: int| 0 <= j < segs@.len() ==> renders(#[trigger] segs@[j], ps[j], deleted),
                forall|j: int| 0 <= j < rest@.len() ==> renders(#[trigger] rest@[j], ps[n - 1 - j], deleted),
            decreases segs@.len(),
        {
            let e = segs.pop().unwrap();
            rest.push(e);
        }
        while rest.len() > 0
            invariant
                n == ps.len(),
                k + rest@.len() == n,
                forall|j: int| 0 <= j < rest@.len() ==> renders(#[trigger] rest@[j], ps[n - 1 - j], deleted),
                r.name == wq(LocalName::R),
                r.attrs@.len() == 0,
                r.children@.len() == off + k,
                r0.children@.len() == off,
                props matches Some(pp) ==> r0.children@[0] matches NewNode::Element(x) && element_same(*pp, x),
                forall|j: int| 0 <= j < off ==> r.children@[j] == r0.children@[j],
                forall|j: int| 0 <= j < k ==> (#[trigger] r.children@[off + j] matches NewNode::Element(x)
                    && renders(x, ps[j], deleted)),
            decreases rest@.len(),
        {
            let e = rest.pop().unwrap();
            r.push_child(e);
            k = k + 1;
        }
        r
    }

    /// `w:fldChar` of the given type, with `w:dirty="true"` when asked.
    fn fld(kind: &str, dirty: bool) -> (e: NewElement)
        ensures
            e.name == wq(LocalName::FldChar),
            e.children@.len() == 0,
    {
        let mut e = NewElement::new(QName::w(LocalName::FldChar)).with_attr(
            QName::w(LocalName::FldCharType),
            kind.to_string(),
        );
        if dirty {
            e.push_attr(QName::w(LocalName::Dirty), crate::diag::text("true"));
        }
        e
    }

    /// A structural `w:r` of a field: a copy of `props`, then `child`.
    fn structural(props: &Option<NewElement>, child: NewElement) -> (r: NewElement)
        ensures
            r.name == wq(LocalName::R),
    {
        let mut r = NewElement::new(QName::w(LocalName::R));
        if let Some(p) = props {
            r.push_child(p.copy());
        }
        r.push_child(child);
        r
    }

    /// Emits each inline of `inlines` in turn.
    fn emit_all(&mut self, inlines: &Vec<NewInline>, deleted: bool, out: &mut Vec<NewElement>)
        requires
            old(self).next_revision_id + auto_ids_list(inlines@) <= u32::MAX,
        ensures
            final(out)@.len() == old(out)@.len() + emitted_list(inlines@),
            final(out)@.subrange(0, old(out)@.len() as int) == old(out)@,
            final(self).next_revision_id == old(self).next_revision_id + auto_ids_list(inlines@),
            runs_render(final(out)@, old(out)@.len() as int, inlines@, deleted),
        decreases inlines,
    {
        let ghost out0 = out@;
        let ghost next0 = self.next_revision_id;
        let ghost s = inlines@;
        proof {
            assert(s.take(0) =~= Seq::<NewInline>::empty());
        }
        for j in 0..inlines.len()
            invariant
                s == inlines@,
                next0 + auto_ids_list(s) <= u32::MAX,
                out@.len() == out0.len() + emitted_list(s.take(j as int)),
                out@.subrange(0, out0.len() as int) == out0,
                self.next_revision_id == next0 + auto_ids_list(s.take(j as int)),
                runs_render(out@, out0.len() as int, s.take(j as int), deleted),
        {
            proof {
                lemma_auto_ids_prefix(s, j as int);
                lemma_auto_ids_prefix(s, j as int + 1);
            }
            let ghost before = out@;
            self.emit(&inlines[j], deleted, out);
            proof {
                assert(out@.subrange(0, out0.len() as int) =~= before.subrange(0, out0.len() as int));
                let t = s.take(j + 1);
                assert(t.take(j as int) =~= s.take(j as int));
                assert forall|k: int| #![trigger t[k]] 0 <= k < t.len() implies (t[k] matches NewInline::Run(r)
                    ==> run_renders(out@[out0.len() as int + emitted_list(t.take(k))], r.text@, r.props, deleted)) by {
                    if k < j {
                        let idx: int = out0.len() as int + emitted_list(t.take(k));
                        assert(t.take(k) =~= s.take(j as int).take(k));
                        assert(s.take(j as int)[k] == t[k]);
                        lemma_emitted_prefix_le(s.take(j as int), k);
                        if t[k] is Run {
                            let x = s.take(j as int).take(k + 1);
                            assert(emitted(t[k]) == 1);
                            lemma_emitted_prefix_le(s.take(j as int), k + 1);
                            assert(x.subrange(0, k) =~= t.take(k));
                            assert(x[k] == t[k]);
                            assert(emitted_list(x) == emitted_list(t.take(k)) + 1);
                            assert(out@[idx] == before[idx]) by {
                                assert(out@.subrange(0, before.len() as int)[idx] == before[idx]);
                            }
                        }
                    } else {
                        assert(t.take(k) =~= s.take(j as int));
                    }
                }
            }
        }
        proof {
            assert(s.take(s.len() as int) =~= s);
        }
    }

    /// One inline as top-level new elements appended to `out` (`deleted`: inside `w:del`, so
    /// text is written as `w:delText`). Revisions without an id get consecutive ids.
    pub fn emit(&mut self, inline: &NewInline, deleted: bool, out: &mut Vec<NewElement>)
        requires
            old(self).next_revision_id + auto_ids(*inline) <= u32::MAX,
        ensures
            final(out)@.len() == old(out)@.len() + emitted(*inline),
            final(out)@.subrange(0, old(out)@.len() as int) == old(out)@,
            final(self).next_revision_id == old(self).next_revision_id + auto_ids(*inline),
            *inline matches NewInline::Run(r) ==> run_renders(final(out)@.last(), r.text@, r.props, deleted),
            *inline matches NewInline::Marker(m) ==> marker_renders(final(out)@.last(), m),
            *inline matches NewInline::Xml(e) ==> element_same(e, final(out)@.last()),
            *inline matches NewInline::Hyperlink { inlines, .. } ==> final(out)@.last().name == wq(LocalName::Hyperlink)
                && final(out)@.last().children@.len() == emitted_list(inlines@),
            *inline matches NewInline::Hyperlink { target, tooltip, .. } ==> link_rendered(final(out)@.last(), target, tooltip),
            *inline matches NewInline::Ins { inlines, rev } ==> final(out)@.last().name == wq(LocalName::Ins)
                && final(out)@.last().children@.len() == emitted_list(inlines@)
                && revision_attrs_are(final(out)@.last().attrs@, rev, old(self).next_revision_id)
                && runs_render_in(final(out)@.last(), inlines@, deleted),
            *inline matches NewInline::Del { inlines, rev } ==> final(out)@.last().name == wq(LocalName::Del)
                && final(out)@.last().children@.len() == emitted_list(inlines@)
                && revision_attrs_are(final(out)@.last().attrs@, rev, old(self).next_revision_id)
                && runs_render_in(final(out)@.last(), inlines@, true),
        decreases inline,
    {
        let ghost out0 = out@;
        match inline {
            NewInline::Run(r) => {
                let e = Self::new_run(r.text.as_str(), r.props.as_ref(), deleted);
                out.push(e);
            },
            NewInline::Hyperlink { target, tooltip, inlines } => {
                let mut h = NewElement::new(QName::w(LocalName::Hyperlink));
                match target {
                    NewLinkTarget::Rel(rid) => h.push_attr(QName::new(NsId::R, LocalName::Id), rid.clone()),
                    NewLinkTarget::Anchor(a) => h.push_attr(QName::w(LocalName::Anchor), a.clone()),
                }
                if let Some(t) = tooltip {
                    h.push_attr(QName::w(LocalName::Tooltip), t.clone());
                }
                proof {
                    let tg: NewLinkTarget = *target;
                    let tt: Option<String> = *tooltip;
                    let first = match tg {
                        NewLinkTarget::Rel(rid) => (QName { ns: NsId::R, local: LocalName::Id }, rid@),
                        NewLinkTarget::Anchor(a) => (QName { ns: NsId::W, local: LocalName::Anchor }, a@),
                    };
                    let views = h.attrs@.map_values(|x: (QName, String)| (x.0, x.1@));
                    assert(views[0] == first);
                    match tt {
                        Some(t) => {
                            assert(views[1] == (QName { ns: NsId::W, local: LocalName::Tooltip }, t@));
                            assert(views =~= seq![first, (QName { ns: NsId::W, local: LocalName::Tooltip }, t@)]);
                        },
                        None => {
                            assert(views =~= seq![first]);
                        },
                    }
                }
                let ghost h0 = h;
                assert(link_rendered(h0, *target, *tooltip));
                let mut kids: Vec<NewElement> = Vec::new();
                self.emit_all(inlines, deleted, &mut kids);
                append_children(&mut h, kids);
                assert(h.attrs@ == h0.attrs@);
                assert(link_rendered(h, *target, *tooltip));
                out.push(h);
            },
            NewInline::Ins { rev, inlines } => {
                let mut e = NewElement::new(QName::w(LocalName::Ins));
                self.revision_attrs(&mut e, rev);
                let mut kids: Vec<NewElement> = Vec::new();
                self.emit_all(inlines, deleted, &mut kids);
                let ghost ks = kids@;
                append_children(&mut e, kids);
                proof {
                    lemma_runs_in(e, ks, inlines@, deleted);
                }
                out.push(e);
            },
            NewInline::Del { rev, inlines } => {
                let mut e = NewElement::new(QName::w(LocalName::Del));
                self.revision_attrs(&mut e, rev);
                let mut kids: Vec<NewElement> = Vec::new();
                self.emit_all(inlines, true, &mut kids);
                let ghost ks = kids@;
                append_children(&mut e, kids);
                proof {
                    lemma_runs_in(e, ks, inlines@, true);
                }
                out.push(e);
            },
            NewInline::Field { instr, result, separate, dirty, props } => {
                out.push(Self::structural(props, Self::fld("begin", *dirty)));
                let mut s = crate::diag::text(" ");
                s.append(trim(instr.as_str()));
                s.append(" ");
                let p = crate::diag::text("preserve");
                let it = NewElement::new(QName::w(LocalName::InstrText)).with_attr(
                    QName::new(NsId::Xml, LocalName::Space),
                    p,
                ).with_text(s);
                out.push(Self::structural(props, it));
                if *separate {
                    out.push(Self::structural(props, Self::fld("separate", false)));
                    let ghost mid = out@;
                    self.emit_all(result, deleted, out);
                    proof {
                        assert(out@.subrange(0, out0.len() as int) =~= mid.subrange(0, out0.len() as int));
                    }
                }
                let ghost mid2 = out@;
                out.push(Self::structural(props, Self::fld("end", false)));
                proof {
                    assert(out@.subrange(0, out0.len() as int) =~= mid2.subrange(0, out0.len() as int));
                }
            },
            NewInline::Marker(m) => {
                out.push(Self::marker(m));
            },
            NewInline::Xml(e) => {
                out.push(e.copy());
            },
        }
        proof {
            assert(out@.subrange(0, out0.len() as int) =~= out0);
        }
    }

    /// The element of a range marker or comment reference.
    pub fn marker(m: &NewMarker) -> (e: NewElement)
        ensures
            marker_renders(e, *m),
    {
        match m {
            NewMarker::BookmarkStart { id, name } => NewElement::new(QName::w(LocalName::BookmarkStart))
                .with_attr(QName::w(LocalName::Id), id.clone())
                .with_attr(QName::w(LocalName::Name), name.clone()),
            NewMarker::BookmarkEnd { id } => NewElement::new(QName::w(LocalName::BookmarkEnd)).with_attr(
                QName::w(LocalName::Id),
                id.clone(),
            ),
            NewMarker::CommentRangeStart { id } => NewElement::new(
                QName::w(LocalName::CommentRangeStart),
            ).with_attr(QName::w(LocalName::Id), id.clone()),
            NewMarker::CommentRangeEnd { id } => NewElement::new(QName::w(LocalName::CommentRangeEnd)).with_attr(
                QName::w(LocalName::Id),
                id.clone(),
            ),
            NewMarker::CommentReference { id } => NewElement::new(QName::w(LocalName::R)).with_child(
                NewElement::new(QName::w(LocalName::CommentReference)).with_attr(
                    QName::w(LocalName::Id),
                    id.clone(),
                ),
            ),
        }
    }
}

/// Appends `kids` to the children of `e`, in order.
fn append_children(e: &mut NewElement, kids: Vec<NewElement>)
    ensures
        final(e).name == old(e).name,
        final(e).attrs@ == old(e).attrs@,
        final(e).children@.len() == old(e).children@.len() + kids@.len(),
        forall|j: int| 0 <= j < old(e).children@.len() ==> final(e).children@[j] == old(e).children@[j],
        forall|j: int| 0 <= j < kids@.len() ==> final(e).children@[old(e).children@.len() + j]
            == NewNode::Element(#[trigger] kids@[j]),
{
    let n = kids.len();
    let ghost ks = kids@;
    let mut kids = kids;
    let mut rest: Vec<NewElement> = Vec::new();
    while kids.len() > 0
        invariant
            n == ks.len(),
            kids@.len() + rest@.len() == n,
            forall|j: int| 0 <= j < kids@.len() ==> kids@[j] == ks[j],
            forall|j: int| 0 <= j < rest@.len() ==> rest@[j] == ks[n - 1 - j],
        decreases kids@.len(),
    {
        let k = kids.pop().unwrap();
        rest.push(k);
    }
    let ghost e0 = *e;
    let mut i: usize = 0;
    while rest.len() > 0
        invariant
            n == ks.len(),
            i + rest@.len() == n,
            forall|j: int| 0 <= j < rest@.len() ==> rest@[j] == ks[n - 1 - j],
            e.name == e0.name,
            e.attrs@ == e0.attrs@,
            e.children@.len() == e0.children@.len() + i,
            forall|j: int| 0 <= j < e0.children@.len() ==> e.children@[j] == e0.children@[j],
            forall|j: int| 0 <= j < i ==> e.children@[e0.children@.len() + j] == NewNode::Element(#[trigger] ks[j]),
        decreases rest@.len(),
    {
        let k = rest.pop().unwrap();
        e.push_child(k);
        i = i + 1;
    }
}

pub open spec fn final_part(s: Seq<NewElement>, from: nat) -> Seq<NewElement> {
    s.subrange(from as int, s.len() as int)
}

pub open spec fn seq_of_text(buf: Seq<char>, out: Seq<NewElement>) -> Seq<NewElement> {
    if buf.len() == 0 {
        seq![]
    } else {
        seq![out.last()]
    }
}

} // verus!
