use vstd::prelude::*;
use crate::ids::{NodeId, PartId};
use crate::diag::{Diagnostic, DiagCode, Error, text};
use crate::dom::Dom;
use crate::edit::{NodeEdit, Target, plan_valid, edit_ok, target_ok, target_node, before_ok, new_parents_are_elements};
use crate::position::Utf16Offset;
use crate::text::{decimal, concat};

verus! {

/// What the plan asks of range bookkeeping: nodes that an edit only re-wraps in place.
#[derive(Debug, Default)]
pub struct SpanPolicy {
    pub rewraps: Vec<NodeId>,
}

/// All changes one operation (or one stage of it) makes to one part.
#[derive(Debug)]
pub struct MutationPlan {
    pub part: PartId,
    pub node_edits: Vec<NodeEdit>,
    /// Blocks (`w:p` / `w:tbl`) whose projection must be refreshed.
    pub affected_blocks: Vec<NodeId>,
    /// Blocks were added, removed or moved: the projection is rebuilt as a whole.
    pub structure_changed: bool,
    /// Diagnostics found while planning, recorded once the plan is committed.
    pub diagnostics: Vec<Diagnostic>,
    /// `(para, from, delta)` for callers that keep a caret.
    pub offset_delta: Vec<(NodeId, Utf16Offset, i32)>,
    /// Range bookkeeping requests.
    pub span: SpanPolicy,
}

/// What `commit` produced.
#[derive(Debug, Default)]
pub struct MutationResult {
    /// The node each edit created, aligned with the plan's edits (`None` where none).
    pub created: Vec<Option<NodeId>>,
    /// Blocks whose projection must be refreshed.
    pub affected_blocks: Vec<NodeId>,
    /// Whether the block structure changed.
    pub structure_changed: bool,
    /// Diagnostics produced by the operation.
    pub diagnostics: Vec<Diagnostic>,
    /// Paragraph, UTF-16 position and length change.
    pub offset_delta: Vec<(NodeId, Utf16Offset, i32)>,
}

/// `acc` followed by the entries of `items` it does not hold yet, each once, in order.
pub open spec fn push_new(acc: Seq<NodeId>, items: Seq<NodeId>) -> Seq<NodeId>
    decreases items.len(),
{
    if items.len() == 0 {
        acc
    } else {
        let prev = push_new(acc, items.drop_last());
        if prev.contains(items.last()) {
            prev
        } else {
            prev.push(items.last())
        }
    }
}

impl MutationResult {
    /// The result of an operation that changed nothing.
    pub fn empty() -> (r: MutationResult)
        ensures
            r.created@.len() == 0,
            r.affected_blocks@.len() == 0,
            !r.structure_changed,
            r.diagnostics@.len() == 0,
            r.offset_delta@.len() == 0,
    {
        MutationResult {
            created: Vec::new(),
            affected_blocks: Vec::new(),
            structure_changed: false,
            diagnostics: Vec::new(),
            offset_delta: Vec::new(),
        }
    }

    /// Merges a later stage into this result: the later `created` wins, blocks are united
    /// (first occurrence order), the structure flag is or-ed, diagnostics and offset deltas
    /// are appended.
    pub fn absorb(&mut self, later: MutationResult)
        ensures
            final(self).created@ == later.created@,
            final(self).affected_blocks@ == push_new(old(self).affected_blocks@, later.affected_blocks@),
            final(self).structure_changed == (old(self).structure_changed || later.structure_changed),
            final(self).diagnostics@ == old(self).diagnostics@ + later.diagnostics@,
            final(self).offset_delta@ == old(self).offset_delta@ + later.offset_delta@,
    {
        let ghost l0 = later;
        let mut later = later;
        let ghost items = later.affected_blocks@;
        let ghost acc = self.affected_blocks@;
        let n = later.affected_blocks.len();
        for i in 0..n
            invariant
                n == items.len(),
                items == later.affected_blocks@,
                self.affected_blocks@ == push_new(acc, items.take(i as int)),
                self.structure_changed == old(self).structure_changed,
                self.diagnostics@ == old(self).diagnostics@,
                self.offset_delta@ == old(self).offset_delta@,
                later == l0,
        {
            let p = later.affected_blocks[i];
            proof {
                assert(items.take(i + 1).drop_last() =~= items.take(i as int));
                assert(items.take(i + 1).last() == p);
            }
            if !contains_node(&self.affected_blocks, p) {
                self.affected_blocks.push(p);
            }
        }
        proof {
            assert(items.take(n as int) =~= items);
        }
        self.created = later.created;
        self.structure_changed = self.structure_changed || later.structure_changed;
        self.diagnostics.append(&mut later.diagnostics);
        self.offset_delta.append(&mut later.offset_delta);
    }
}

/// Does `v` hold `n`?
pub fn contains_node(v: &Vec<NodeId>, n: NodeId) -> (r: bool)
    ensures
        r == v@.contains(n),
{
    for i in 0..v.len()
        invariant
            forall|j: int| 0 <= j < i ==> v@[j] != n,
    {
        if v[i] == n {
            return true;
        }
    }
    false
}

impl MutationPlan {
    /// An empty plan for `part`.
    pub fn new(part: PartId) -> (p: MutationPlan)
        ensures
            p.part == part,
            p.node_edits@.len() == 0,
            p.affected_blocks@.len() == 0,
            !p.structure_changed,
            p.diagnostics@.len() == 0,
            p.offset_delta@.len() == 0,
            p.span.rewraps@.len() == 0,
    {
        MutationPlan {
            part,
            node_edits: Vec::new(),
            affected_blocks: Vec::new(),
            structure_changed: false,
            diagnostics: Vec::new(),
            offset_delta: Vec::new(),
            span: SpanPolicy { rewraps: Vec::new() },
        }
    }

    /// Does the plan hold no edit?
    pub fn is_empty(&self) -> (r: bool)
        ensures
            r == (self.node_edits@.len() == 0),
    {
        self.node_edits.len() == 0
    }

    /// Marks a block (`w:p` / `w:tbl`) for projection refresh (once).
    pub fn touch(&mut self, block: NodeId)
        ensures
            final(self).affected_blocks@ == (if old(self).affected_blocks@.contains(block) {
                old(self).affected_blocks@
            } else {
                old(self).affected_blocks@.push(block)
            }),
            final(self).node_edits@ == old(self).node_edits@,
            final(self).part == old(self).part,
            final(self).structure_changed == old(self).structure_changed,
            final(self).diagnostics@ == old(self).diagnostics@,
            final(self).offset_delta@ == old(self).offset_delta@,
            final(self).span.rewraps@ == old(self).span.rewraps@,
    {
        if !contains_node(&self.affected_blocks, block) {
            self.affected_blocks.push(block);
        }
    }

    /// Appends one edit.
    pub fn push(&mut self, e: NodeEdit)
        ensures
            final(self).node_edits@ == old(self).node_edits@.push(e),
            final(self).affected_blocks@ == old(self).affected_blocks@,
            final(self).part == old(self).part,
            final(self).structure_changed == old(self).structure_changed,
            final(self).diagnostics@ == old(self).diagnostics@,
            final(self).offset_delta@ == old(self).offset_delta@,
            final(self).span.rewraps@ == old(self).span.rewraps@,
    {
        self.node_edits.push(e);
    }

    /// Read-only check: every node an edit names exists, is live and has the right kind;
    /// `before` is a child of `parent`; `Target::New(k)` names an earlier creating edit; `Move`
    /// does not move a node into its own subtree. Fails with `EditPlanInvalid`; the DOM is
    /// not touched.
    pub fn validate(&self, dom: &Dom) -> (r: Result<(), Error>)
        requires
            dom.wf(),
        ensures
            r is Ok <==> plan_valid(*dom, self.node_edits@),
            r matches Err(e) ==> e.has_code(DiagCode::EditPlanInvalid),
    {
        let edits = &self.node_edits;
        for i in 0..edits.len()
            invariant
                dom.wf(),
                edits@ == self.node_edits@,
                forall|j: int| 0 <= j < i ==> edit_ok(*dom, edits@, j),
        {
            let ok = check_edit(dom, edits, i);
            match ok {
                Ok(()) => {},
                Err(e) => {
                    assert(!edit_ok(*dom, edits@, i as int));
                    return Err(e);
                },
            }
        }
        Ok(())
    }

    /// Mechanical write of a validated plan. Nothing in it can fail; the result carries the
    /// plan's bookkeeping and the nodes each edit created.
    pub fn commit(self, dom: &mut Dom) -> (result: MutationResult)
        requires
            old(dom).wf(),
            plan_valid(*old(dom), self.node_edits@),
        ensures
            final(dom).wf(),
            crate::edit::grew(*old(dom), *final(dom)),
            result.created@.len() == self.node_edits@.len(),
            forall|i: int| 0 <= i < result.created@.len() ==> (#[trigger] result.created@[i] matches Some(n)
                ==> self.node_edits@[i].spec_creates() && final(dom).fresh_in(old(dom).nodes@.len(), n)),
            new_parents_are_elements(*old(dom), self.node_edits@) && final(dom).nodes@.len() + 2 < u32::MAX
                ==> forall|i: int| 0 <= i < result.created@.len()
                ==> (#[trigger] result.created@[i] is Some <==> self.node_edits@[i].spec_creates()),
            result.affected_blocks@ == self.affected_blocks@,
            result.structure_changed == self.structure_changed,
            result.diagnostics@ == self.diagnostics@,
            result.offset_delta@ == self.offset_delta@,
            crate::edit::applied(*old(dom), self.node_edits@, result.created@, *final(dom)),
    {
        let created = dom.apply_edits(&self.node_edits);
        MutationResult {
            created,
            affected_blocks: self.affected_blocks,
            structure_changed: self.structure_changed,
            diagnostics: self.diagnostics,
            offset_delta: self.offset_delta,
        }
    }
}


/// The checks of `validate` on the i-th edit.
fn check_edit(dom: &Dom, edits: &Vec<NodeEdit>, i: usize) -> (r: Result<(), Error>)
    requires
        dom.wf(),
        i < edits@.len(),
    ensures
        r is Ok <==> edit_ok(*dom, edits@, i as int),
        r matches Err(e) ==> e.has_code(DiagCode::EditPlanInvalid),
{
    match &edits[i] {
        NodeEdit::Insert { parent, before, .. } => {
            match check_target(dom, edits, *parent, i, "parent") {
                Ok(p) => check_before(dom, p, *before, i),
                Err(e) => Err(e),
            }
        },
        NodeEdit::InsertClone { parent, before, source } => {
            match check_target(dom, edits, *parent, i, "parent") {
                Ok(p) => match check_before(dom, p, *before, i) {
                    Ok(()) => if !dom.is_live(*source) {
                        Err(bad(edit_node_msg(i, "克隆源 ", *source, " 不存在或已删除")))
                    } else {
                        Ok(())
                    },
                    Err(e) => Err(e),
                },
                Err(e) => Err(e),
            }
        },
        NodeEdit::Replace { old, .. } => {
            if !dom.is_live(*old) || dom.parent(*old).is_none() {
                Err(bad(edit_node_msg(i, "被替换节点 ", *old, " 无效")))
            } else {
                Ok(())
            }
        },
        NodeEdit::ReplaceClone { old, source } => {
            if !dom.is_live(*old) || dom.parent(*old).is_none() {
                Err(bad(edit_node_msg(i, "被替换节点 ", *old, " 无效")))
            } else if !dom.is_live(*source) {
                Err(bad(edit_node_msg(i, "克隆源 ", *source, " 不存在或已删除")))
            } else {
                Ok(())
            }
        },
        NodeEdit::Delete(n) => {
            if !dom.is_live(*n) {
                Err(bad(edit_node_msg(i, "删除的节点 ", *n, " 不存在或已删除")))
            } else {
                Ok(())
            }
        },
        NodeEdit::SetAttr { node, .. } => match check_target(dom, edits, *node, i, "node") {
            Ok(_) => Ok(()),
            Err(e) => Err(e),
        },
        NodeEdit::RemoveAttr { node, .. } => match check_target(dom, edits, *node, i, "node") {
            Ok(_) => Ok(()),
            Err(e) => Err(e),
        },
        NodeEdit::SetText { node, .. } => {
            if !dom.is_live(*node) || dom.text_of(*node).is_none() {
                Err(bad(edit_node_msg(i, "SetText 的目标 ", *node, " 不是活文本节点")))
            } else {
                Ok(())
            }
        },
        NodeEdit::Rename { node, .. } => {
            if !dom.is_live(*node) || dom.element(*node).is_none() {
                Err(bad(edit_node_msg(i, "改名的目标 ", *node, " 不是活元素")))
            } else {
                Ok(())
            }
        },
        NodeEdit::Move { node, parent, before } => {
            if !dom.is_live(*node) || dom.parent(*node).is_none() {
                Err(bad(edit_node_msg(i, "移动的节点 ", *node, " 无效")))
            } else {
                match check_target(dom, edits, *parent, i, "parent") {
                    Ok(p) => match check_before(dom, p, *before, i) {
                        Ok(()) => match p {
                            Some(p) => if dom.is_ancestor_or_self(*node, p) {
                                Err(bad(edit_node_msg(i, "不能把节点 ", *node, " 搬进自己的子树")))
                            } else {
                                Ok(())
                            },
                            None => Ok(()),
                        },
                        Err(e) => Err(e),
                    },
                    Err(e) => Err(e),
                }
            }
        },
    }
}

fn bad(msg: String) -> (e: Error)
    ensures
        e.has_code(DiagCode::EditPlanInvalid),
{
    Error::edit(DiagCode::EditPlanInvalid, msg)
}

/// `edit[i] <head><n><tail>`.
fn edit_node_msg(i: usize, head: &str, n: NodeId, tail: &str) -> (r: String)
    ensures
        r@ == "edit["@ + crate::text::spec_decimal(i as nat) + "]: "@ + head@ + crate::text::spec_decimal(n.0 as nat) + tail@,
{
    let mut s = text("edit[");
    s.append(decimal(i as u64).as_str());
    s.append("]: ");
    s.append(head);
    s.append(decimal(n.0 as u64).as_str());
    s.append(tail);
    s
}

/// `edit[i] <what><tail>`.
fn edit_msg(i: usize, what: &str, tail: &str) -> (r: String)
    ensures
        r@ == "edit["@ + crate::text::spec_decimal(i as nat) + "] "@ + what@ + tail@,
{
    let mut s = text("edit[");
    s.append(decimal(i as u64).as_str());
    s.append("] ");
    s.append(what);
    s.append(tail);
    s
}

/// A target names a live element or an earlier creating edit; returns the node it names
/// directly.
fn check_target(dom: &Dom, edits: &Vec<NodeEdit>, t: Target, i: usize, what: &str) -> (r: Result<
    Option<NodeId>,
    Error,
>)
    requires
        dom.wf(),
        i < edits@.len(),
    ensures
        r is Ok <==> target_ok(*dom, edits@, t, i as int),
        r matches Ok(p) ==> p == target_node(t),
        r matches Err(e) ==> e.has_code(DiagCode::EditPlanInvalid),
{
    match t {
        Target::Node(n) => {
            if !(dom.is_live(n) && dom.element(n).is_some()) {
                return Err(bad(edit_msg(i, what, ": 节点不是活元素")));
            }
            Ok(Some(n))
        },
        Target::New(k) => {
            if k >= i || !edits[k].creates() {
                return Err(bad(edit_msg(i, what, ": Target::New 不指向前面的创建")));
            }
            Ok(None)
        },
    }
}

/// `before` is a child of `parent`; a new parent takes no `before`.
fn check_before(dom: &Dom, parent: Option<NodeId>, before: Option<NodeId>, i: usize) -> (r: Result<
    (),
    Error,
>)
    requires
        dom.wf(),
        parent matches Some(p) ==> dom.has(p),
    ensures
        r is Ok <==> before_ok(*dom, parent, before),
        r matches Err(e) ==> e.has_code(DiagCode::EditPlanInvalid),
{
    match (parent, before) {
        (_, None) => Ok(()),
        (Some(p), Some(b)) => {
            if !dom.contains(b) || dom.child_index(p, b).is_none() {
                return Err(bad(edit_node_msg(i, "before ", b, " 不是 parent 的子节点")));
            }
            Ok(())
        },
        (None, Some(_)) => Err(bad(edit_msg(i, "", ": 新建父节点下不能指定 before"))),
    }
}

} // verus!
