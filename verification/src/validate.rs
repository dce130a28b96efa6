//! The validator: an ordered list of rules, each a predicate on one node,
//! applied to the nodes of a tree.
//!
//! The walk visits a node, then the children of a document, a heading, a
//! bold and an italic node. It does not look inside paragraphs.

use vstd::prelude::*;
use vstd::string::StringExecFns;

use crate::error::MarkdownError;
use crate::node::{cst_views, lemma_preorder_all_members, preorder_all, strings_view, CSTNode, Cst};
use crate::strings::joined;

verus! {

/// A predicate on single nodes that a rule can be made of.
pub trait NodePredicate {
    /// Whether the predicate can be asked about every node and gives one
    /// answer for each; the answer may depend on nothing but the node.
    spec fn pure(&self) -> bool;

    /// The answer for a node.
    spec fn accepts(&self, node: Cst) -> bool;

    /// Asks the predicate about a node.
    fn check(&self, node: &CSTNode) -> (ok: bool)
        requires
            self.pure(),
        ensures
            ok == self.accepts(node@),
    ;
}

/// A closure or function used as a predicate.
pub struct FnPredicate<F>(pub F);

impl<F: Fn(&CSTNode) -> bool> NodePredicate for FnPredicate<F> {
    open spec fn pure(&self) -> bool {
        &&& forall|node: &CSTNode| #[trigger] call_requires(self.0, (node,))
        &&& forall|a: &CSTNode, b: &CSTNode, x: bool, y: bool|
            a@ == b@ && #[trigger] call_ensures(self.0, (a,), x) && #[trigger] call_ensures(
                self.0,
                (b,),
                y,
            ) ==> x == y
    }

    open spec fn accepts(&self, node: Cst) -> bool {
        exists|n: &CSTNode| n@ == node && #[trigger] call_ensures(self.0, (n,), true)
    }

    fn check(&self, node: &CSTNode) -> (ok: bool) {
        let ok = (self.0)(node);
        ok
    }
}

/// A predicate held by value, so that it can stand behind a rule.
pub struct Held<P>(pub P);

impl<P: NodePredicate> NodePredicate for Held<P> {
    open spec fn pure(&self) -> bool {
        self.0.pure()
    }

    open spec fn accepts(&self, node: Cst) -> bool {
        self.0.accepts(node)
    }

    fn check(&self, node: &CSTNode) -> (ok: bool) {
        self.0.check(node)
    }
}

/// Whether a node is no heading, or a heading of a level from one to six.
pub open spec fn heading_level_ok(node: Cst) -> bool {
    node matches Cst::Heading { level, .. } ==> 1 <= level <= 6
}

/// Whether a node is no heading, or a heading with content.
pub open spec fn heading_has_content(node: Cst) -> bool {
    node matches Cst::Heading { content, .. } ==> content.len() > 0
}

/// The rule that every heading is of a level from one to six.
pub struct HeadingLevel;

impl NodePredicate for HeadingLevel {
    open spec fn pure(&self) -> bool {
        true
    }

    open spec fn accepts(&self, node: Cst) -> bool {
        heading_level_ok(node)
    }

    fn check(&self, node: &CSTNode) -> (ok: bool) {
        match node {
            CSTNode::Heading { level, .. } => 1 <= *level && *level <= 6,
            _ => true,
        }
    }
}

/// The rule that no heading is empty.
pub struct HeadingContent;

impl NodePredicate for HeadingContent {
    open spec fn pure(&self) -> bool {
        true
    }

    open spec fn accepts(&self, node: Cst) -> bool {
        heading_has_content(node)
    }

    fn check(&self, node: &CSTNode) -> (ok: bool) {
        match node {
            CSTNode::Heading { content, .. } => {
                assert(node@->Heading_content.len() == content@.len());
                content.len() > 0
            },
            _ => true,
        }
    }
}

/// A named rule: a predicate that every visited node has to meet, and what to
/// say of a node that does not.
pub struct ValidationRule {
    name: String,
    check: Box<dyn NodePredicate>,
    message: String,
}

impl ValidationRule {
    /// The rule's name.
    pub closed spec fn name(&self) -> Seq<char> {
        self.name@
    }

    /// What the rule says of a node that breaks it.
    pub closed spec fn message(&self) -> Seq<char> {
        self.message@
    }

    /// Whether the rule's predicate is pure.
    pub closed spec fn pure(&self) -> bool {
        self.check.pure()
    }

    /// Whether a node meets the rule.
    pub closed spec fn accepts(&self, node: Cst) -> bool {
        self.check.accepts(node)
    }

    /// The line reported for a node that breaks the rule.
    pub open spec fn line(&self) -> Seq<char> {
        self.name() + ": "@ + self.message()
    }

    /// A rule from a closure or function.
    pub fn new<F: Fn(&CSTNode) -> bool + 'static>(name: &str, check: F, message: &str) -> (rule:
        ValidationRule)
        ensures
            rule.name() == name@,
            rule.message() == message@,
            rule.pure() == FnPredicate(check).pure(),
            forall|node: Cst| #[trigger] rule.accepts(node) == FnPredicate(check).accepts(node),
    {
        ValidationRule {
            name: name.to_owned(),
            check: Box::new(FnPredicate(check)),
            message: message.to_owned(),
        }
    }

    /// A rule from a predicate.
    pub fn from_predicate<P: NodePredicate + 'static>(name: &str, check: P, message: &str) -> (rule:
        ValidationRule)
        ensures
            rule.name() == name@,
            rule.message() == message@,
            rule.pure() == check.pure(),
            forall|node: Cst| #[trigger] rule.accepts(node) == check.accepts(node),
    {
        ValidationRule {
            name: name.to_owned(),
            check: Box::new(Held(check)),
            message: message.to_owned(),
        }
    }
}

/// The lines for the rules among the first `count` that `node` breaks, in the
/// order of the rules.
pub open spec fn node_violations(rules: Seq<ValidationRule>, node: Cst, count: nat) -> Seq<
    Seq<char>,
>
    decreases count,
{
    if count == 0 || count > rules.len() {
        Seq::empty()
    } else {
        node_violations(rules, node, (count - 1) as nat) + if rules[count - 1].accepts(node) {
            Seq::<Seq<char>>::empty()
        } else {
            seq![rules[count - 1].line()]
        }
    }
}

/// The lines for everything that the walk finds broken at `node` and below
/// it: first the node's own, then its children's, from first to last.
pub open spec fn violations(rules: Seq<ValidationRule>, node: Cst) -> Seq<Seq<char>>
    decreases node, 0nat,
{
    node_violations(rules, node, rules.len()) + match node {
        Cst::Document { children, .. } => violations_all(rules, children, children.len()),
        Cst::Heading { content, .. } => violations_all(rules, content, content.len()),
        Cst::Bold { content, .. } => violations_all(rules, content, content.len()),
        Cst::Italic { content, .. } => violations_all(rules, content, content.len()),
        _ => Seq::empty(),
    }
}

/// The lines for the first `count` of `nodes`, one node after another.
pub open spec fn violations_all(rules: Seq<ValidationRule>, nodes: Seq<Cst>, count: nat) -> Seq<
    Seq<char>,
>
    decreases nodes, count,
{
    if count == 0 || count > nodes.len() {
        Seq::empty()
    } else {
        violations_all(rules, nodes, (count - 1) as nat) + violations(rules, nodes[count - 1])
    }
}

/// The name of the first default rule.
pub open spec fn level_rule_name() -> Seq<char> {
    "heading_level"@
}

/// The message of the first default rule.
pub open spec fn level_rule_message() -> Seq<char> {
    "Heading level must be between 1 and 6"@
}

/// The name of the second default rule.
pub open spec fn content_rule_name() -> Seq<char> {
    "empty_heading"@
}

/// The message of the second default rule.
pub open spec fn content_rule_message() -> Seq<char> {
    "Headings must not be empty"@
}

/// Whether `rules` are the two default rules and no other.
pub open spec fn default_rules(rules: Seq<ValidationRule>) -> bool {
    &&& rules.len() == 2
    &&& rules[0].name() == level_rule_name()
    &&& rules[0].message() == level_rule_message()
    &&& forall|node: Cst| #[trigger] rules[0].accepts(node) == heading_level_ok(node)
    &&& rules[1].name() == content_rule_name()
    &&& rules[1].message() == content_rule_message()
    &&& forall|node: Cst| #[trigger] rules[1].accepts(node) == heading_has_content(node)
}

/// The nodes that the walk visits at `node` and below it: the node, then what
/// it visits at the children of a document, a heading, a bold and an italic
/// node. It visits nothing inside a paragraph.
pub open spec fn visited(node: Cst) -> Seq<Cst>
    decreases node, 0nat,
{
    seq![node] + match node {
        Cst::Document { children, .. } => visited_all(children, children.len()),
        Cst::Heading { content, .. } => visited_all(content, content.len()),
        Cst::Bold { content, .. } => visited_all(content, content.len()),
        Cst::Italic { content, .. } => visited_all(content, content.len()),
        _ => Seq::empty(),
    }
}

/// The nodes that the walk visits at the first `count` of `nodes`.
pub open spec fn visited_all(nodes: Seq<Cst>, count: nat) -> Seq<Cst>
    decreases nodes, count,
{
    if count == 0 || count > nodes.len() {
        Seq::empty()
    } else {
        visited_all(nodes, (count - 1) as nat) + visited(nodes[count - 1])
    }
}

/// Whether a node meets both default rules.
pub open spec fn meets_default_rules(node: Cst) -> bool {
    heading_level_ok(node) && heading_has_content(node)
}

/// Whether every node of a sequence meets both default rules.
pub open spec fn all_meet_default_rules(nodes: Seq<Cst>) -> bool {
    forall|i: int| 0 <= i < nodes.len() ==> meets_default_rules(#[trigger] nodes[i])
}

/// Under the default rules a tree is accepted exactly when every node that
/// the walk visits is no heading, or a heading with content and of a level
/// from one to six.
pub proof fn law_default_rules_judge_visited(rules: Seq<ValidationRule>, node: Cst)
    requires
        default_rules(rules),
    ensures
        violations(rules, node).len() == 0 <==> all_meet_default_rules(visited(node)),
    decreases node, 1nat,
{
    reveal_with_fuel(node_violations, 3);
    let own = node_violations(rules, node, rules.len());
    assert(own.len() == 0 <==> meets_default_rules(node));
    let kids = match node {
        Cst::Document { children, .. } => children,
        Cst::Heading { content, .. } => content,
        Cst::Bold { content, .. } => content,
        Cst::Italic { content, .. } => content,
        _ => Seq::empty(),
    };
    let below = violations_all(rules, kids, kids.len());
    let seen = visited_all(kids, kids.len());
    assert(violations(rules, node) =~= own + below);
    assert(visited(node) =~= seq![node] + seen);
    lemma_default_rules_judge_all(rules, kids, kids.len(), node);
    if all_meet_default_rules(visited(node)) {
        assert(visited(node)[0] == node);
        assert forall|i: int| 0 <= i < seen.len() implies meets_default_rules(
            #[trigger] seen[i],
        ) by {
            assert(visited(node)[i + 1] == seen[i]);
        }
    }
    if own.len() == 0 && below.len() == 0 {
        assert forall|i: int| 0 <= i < visited(node).len() implies meets_default_rules(
            #[trigger] visited(node)[i],
        ) by {
            if i > 0 {
                assert(visited(node)[i] == seen[i - 1]);
            }
        }
    }
}

/// The same for the first `count` children of a node.
proof fn lemma_default_rules_judge_all(
    rules: Seq<ValidationRule>,
    nodes: Seq<Cst>,
    count: nat,
    parent: Cst,
)
    requires
        default_rules(rules),
        count <= nodes.len(),
        forall|i: int| 0 <= i < nodes.len() ==> decreases_to!(parent => #[trigger] nodes[i]),
    ensures
        violations_all(rules, nodes, count).len() == 0 <==> all_meet_default_rules(
            visited_all(nodes, count),
        ),
    decreases parent, 0nat, count,
{
    if count > 0 {
        let front = violations_all(rules, nodes, (count - 1) as nat);
        let last = violations(rules, nodes[count - 1]);
        let seen_front = visited_all(nodes, (count - 1) as nat);
        let seen_last = visited(nodes[count - 1]);
        lemma_default_rules_judge_all(rules, nodes, (count - 1) as nat, parent);
        law_default_rules_judge_visited(rules, nodes[count - 1]);
        assert(violations_all(rules, nodes, count) =~= front + last);
        assert(visited_all(nodes, count) =~= seen_front + seen_last);
        let seen = visited_all(nodes, count);
        if all_meet_default_rules(seen) {
            assert forall|i: int| 0 <= i < seen_front.len() implies meets_default_rules(
                #[trigger] seen_front[i],
            ) by {
                assert(seen[i] == seen_front[i]);
            }
            assert forall|i: int| 0 <= i < seen_last.len() implies meets_default_rules(
                #[trigger] seen_last[i],
            ) by {
                assert(seen[seen_front.len() + i] == seen_last[i]);
            }
        }
        if all_meet_default_rules(seen_front) && all_meet_default_rules(seen_last) {
            assert forall|i: int| 0 <= i < seen.len() implies meets_default_rules(
                #[trigger] seen[i],
            ) by {
                if i < seen_front.len() {
                    assert(seen[i] == seen_front[i]);
                } else {
                    assert(seen[i] == seen_last[i - seen_front.len()]);
                }
            }
        }
    }
}

/// Every node that the walk visits is a node of the tree.
pub proof fn lemma_visited_in_preorder(node: Cst)
    ensures
        forall|i: int|
            0 <= i < visited(node).len() ==> node.preorder().contains(#[trigger] visited(node)[i]),
    decreases node, 1nat,
{
    let kids = node.children();
    let seen = if node is Paragraph {
        Seq::empty()
    } else {
        visited_all(kids, kids.len())
    };
    let below = preorder_all(kids, kids.len());
    assert(visited(node) =~= seq![node] + seen);
    assert(node.preorder() =~= seq![node] + below);
    if !(node is Paragraph) {
        lemma_visited_all_in_preorder(kids, kids.len(), node);
    }
    assert forall|i: int| 0 <= i < visited(node).len() implies node.preorder().contains(
        #[trigger] visited(node)[i],
    ) by {
        if i == 0 {
            assert(node.preorder()[0] == node);
        } else {
            let item = seen[i - 1];
            assert(below.contains(item));
            let k = choose|k: int| 0 <= k < below.len() && below[k] == item;
            assert(node.preorder()[k + 1] == item);
        }
    }
}

/// The same for the first `count` children of a node.
proof fn lemma_visited_all_in_preorder(nodes: Seq<Cst>, count: nat, parent: Cst)
    requires
        count <= nodes.len(),
        forall|i: int| 0 <= i < nodes.len() ==> decreases_to!(parent => #[trigger] nodes[i]),
    ensures
        forall|i: int|
            0 <= i < visited_all(nodes, count).len() ==> preorder_all(nodes, nodes.len()).contains(
                #[trigger] visited_all(nodes, count)[i],
            ),
    decreases parent, 0nat, count,
{
    if count > 0 {
        let seen_front = visited_all(nodes, (count - 1) as nat);
        let seen_last = visited(nodes[count - 1]);
        let seen = visited_all(nodes, count);
        lemma_visited_all_in_preorder(nodes, (count - 1) as nat, parent);
        lemma_visited_in_preorder(nodes[count - 1]);
        lemma_preorder_all_members(nodes, nodes.len());
        assert(seen =~= seen_front + seen_last);
        assert forall|i: int| 0 <= i < seen.len() implies preorder_all(
            nodes,
            nodes.len(),
        ).contains(#[trigger] seen[i]) by {
            if i < seen_front.len() {
                assert(seen[i] == seen_front[i]);
            } else {
                assert(seen[i] == seen_last[i - seen_front.len()]);
                assert(nodes[count - 1].preorder().contains(seen[i]));
            }
        }
    }
}

/// The default rules reject every tree in which the walk reaches a heading
/// without content or of a level outside one to six, and accept every tree
/// all of whose headings have content and a level from one to six.
pub proof fn law_default_rules(rules: Seq<ValidationRule>, node: Cst)
    requires
        default_rules(rules),
    ensures
        (exists|i: int|
            0 <= i < visited(node).len() && (#[trigger] visited(node)[i] matches Cst::Heading {
                level,
                content,
                ..
            } && (content.len() == 0 || level < 1 || level > 6))) ==> violations(
            rules,
            node,
        ).len() > 0,
        all_meet_default_rules(node.preorder()) ==> violations(rules, node).len() == 0,
{
    law_default_rules_judge_visited(rules, node);
    lemma_visited_in_preorder(node);
    if all_meet_default_rules(node.preorder()) {
        assert forall|i: int| 0 <= i < visited(node).len() implies meets_default_rules(
            #[trigger] visited(node)[i],
        ) by {
            let item = visited(node)[i];
            let k = choose|k: int| 0 <= k < node.preorder().len() && node.preorder()[k] == item;
            assert(meets_default_rules(node.preorder()[k]));
        }
    }
}

/// Makes one string of `parts`, with a line feed between each two.
pub fn join_lines(parts: &Vec<String>) -> (text: String)
    ensures
        text@ == joined(strings_view(parts@), "\n"@),
{
    let mut text = String::new();
    let mut i: usize = 0;
    let ghost lines = strings_view(parts@);
    assert(lines.take(0) =~= Seq::<Seq<char>>::empty());
    while i < parts.len()
        invariant
            i <= parts.len(),
            lines == strings_view(parts@),
            text@ == joined(lines.take(i as int), "\n"@),
        decreases parts.len() - i,
    {
        proof {
            let upto = lines.take(i + 1);
            assert(upto.drop_last() =~= lines.take(i as int));
            assert(upto.last() == parts@[i as int]@);
            if i == 0 {
                assert(joined(lines.take(0), "\n"@) =~= Seq::<char>::empty());
            }
        }
        if i > 0 {
            text.append("\n");
        }
        text.append(parts[i].as_str());
        i += 1;
        assert(text@ =~= joined(lines.take(i as int), "\n"@));
    }
    assert(lines.take(i as int) =~= lines);
    text
}

/// A validator: its rules in the order in which they are applied, and the
/// lines that the last validation gave.
pub struct MarkdownValidator {
    rules: Vec<ValidationRule>,
    errors: Vec<String>,
}

impl Default for MarkdownValidator {
    fn default() -> (validator: MarkdownValidator)
        ensures
            validator.is_default(),
            validator.rules_pure(),
            validator.errors().len() == 0,
    {
        MarkdownValidator::new()
    }
}

impl MarkdownValidator {
    /// The rules, in the order in which they are applied.
    pub closed spec fn rules(&self) -> Seq<ValidationRule> {
        self.rules@
    }

    /// The lines of the last validation.
    pub closed spec fn errors(&self) -> Seq<Seq<char>> {
        strings_view(self.errors@)
    }

    /// Whether every rule's predicate is pure.
    pub open spec fn rules_pure(&self) -> bool {
        forall|i: int| 0 <= i < self.rules().len() ==> (#[trigger] self.rules()[i]).pure()
    }

    /// Whether the validator holds the two default rules and no other.
    pub open spec fn is_default(&self) -> bool {
        default_rules(self.rules())
    }

    /// A validator with the default rules: every heading of a level from
    /// one to six, no heading without content.
    pub fn new() -> (validator: MarkdownValidator)
        ensures
            validator.is_default(),
            validator.rules_pure(),
            validator.errors().len() == 0,
    {
        let mut rules: Vec<ValidationRule> = Vec::new();
        rules.push(
            ValidationRule::from_predicate(
                "heading_level",
                HeadingLevel,
                "Heading level must be between 1 and 6",
            ),
        );
        rules.push(
            ValidationRule::from_predicate(
                "empty_heading",
                HeadingContent,
                "Headings must not be empty",
            ),
        );
        MarkdownValidator { rules, errors: Vec::new() }
    }

    /// The lines of the last validation, one for each broken rule at each
    /// node.
    pub fn messages(&self) -> (lines: &Vec<String>)
        ensures
            strings_view(lines@) == self.errors(),
    {
        &self.errors
    }

    /// Adds a rule behind those that are there.
    pub fn add_rule(&mut self, rule: ValidationRule)
        ensures
            final(self).rules() == old(self).rules().push(rule),
            final(self).errors() == old(self).errors(),
    {
        self.rules.push(rule);
    }

    /// Applies the rules to `node` and what the walk reaches below it. All is
    /// well if no rule is broken; else the error holds one line for each
    /// broken rule at each node, joined by line feeds.
    pub fn validate(&mut self, node: &CSTNode) -> (outcome: Result<(), MarkdownError>)
        requires
            old(self).rules_pure(),
        ensures
            final(self).rules() == old(self).rules(),
            final(self).errors() == violations(old(self).rules(), node@),
            outcome is Ok <==> violations(old(self).rules(), node@).len() == 0,
            outcome matches Err(error) ==> error matches MarkdownError::ValidationError(text)
                && text@ == joined(violations(old(self).rules(), node@), "\n"@),
    {
        self.errors = Vec::new();
        assert(self.errors() =~= Seq::<Seq<char>>::empty());
        assert(self.rules() == old(self).rules());
        match self.visit_node(node) {
            Ok(()) => {},
            Err(error) => {
                return Err(error);
            },
        }
        assert(self.errors() =~= violations(self.rules(), node@));
        if self.errors.len() == 0 {
            Ok(())
        } else {
            Err(MarkdownError::ValidationError(join_lines(&self.errors)))
        }
    }

    /// Applies every rule to a node, then walks on to its children.
    fn visit_node(&mut self, node: &CSTNode) -> (outcome: Result<(), MarkdownError>)
        requires
            old(self).rules_pure(),
        ensures
            outcome is Ok,
            final(self).rules == old(self).rules,
            final(self).errors() == old(self).errors() + violations(old(self).rules(), node@),
        decreases node, 1nat,
    {
        let ghost before = self.errors();
        let ghost rules = self.rules();
        let mut i: usize = 0;
        assert(self.errors() =~= before + node_violations(rules, node@, 0));
        while i < self.rules.len()
            invariant
                i <= self.rules.len(),
                self.rules == old(self).rules,
                rules == self.rules(),
                self.rules_pure(),
                self.errors() == before + node_violations(rules, node@, i as nat),
            decreases self.rules.len() - i,
        {
            let ghost so_far = self.errors();
            assert(self.rules()[i as int].pure());
            if !self.rules[i].check.check(node) {
                let mut line = self.rules[i].name.clone();
                line.append(": ");
                line.append(self.rules[i].message.as_str());
                self.errors.push(line);
                assert(self.errors() =~= so_far.push(rules[i as int].line()));
            }
            i += 1;
            assert(self.errors() =~= before + node_violations(rules, node@, i as nat));
        }
        let ghost own = self.errors();
        match node {
            CSTNode::Document { children, .. } => {
                assert(cst_views(children@) =~= node@->Document_children);
                self.visit_all(children);
            },
            CSTNode::Heading { content, .. } => {
                assert(cst_views(content@) =~= node@->Heading_content);
                self.visit_all(content);
            },
            CSTNode::Bold { content, .. } => {
                assert(cst_views(content@) =~= node@->Bold_content);
                self.visit_all(content);
            },
            CSTNode::Italic { content, .. } => {
                assert(cst_views(content@) =~= node@->Italic_content);
                self.visit_all(content);
            },
            _ => {
                assert(self.errors() =~= own + Seq::<Seq<char>>::empty());
            },
        }
        assert(self.errors() =~= before + violations(rules, node@));
        Ok(())
    }

    /// Walks through `nodes`, one after another.
    fn visit_all(&mut self, nodes: &Vec<CSTNode>)
        requires
            old(self).rules_pure(),
        ensures
            final(self).rules == old(self).rules,
            final(self).errors() == old(self).errors() + violations_all(
                old(self).rules(),
                cst_views(nodes@),
                nodes@.len(),
            ),
        decreases nodes, 0nat,
    {
        let ghost before = self.errors();
        let ghost rules = self.rules();
        let mut i: usize = 0;
        assert(self.errors() =~= before + violations_all(rules, cst_views(nodes@), 0));
        while i < nodes.len()
            invariant
                i <= nodes.len(),
                self.rules == old(self).rules,
                rules == self.rules(),
                self.rules_pure(),
                self.errors() == before + violations_all(rules, cst_views(nodes@), i as nat),
            decreases nodes.len() - i,
        {
            let ghost so_far = self.errors();
            let _ = self.visit_node(&nodes[i]);
            i += 1;
            assert(self.errors() =~= before + violations_all(rules, cst_views(nodes@), i as nat));
        }
    }
}

} // verus!
