//! The formatter: from a syntax tree back to text, under a set of style
//! options.

use vstd::prelude::*;
use vstd::string::StringExecFns;

use crate::error::MarkdownError;
use crate::node::{
    ast_views, cst_views, lemma_preorder_all_members, preorder_all, ASTNode, Ast, CSTNode, Cst,
};
use crate::strings::{push_char, push_repeated};

verus! {

/// How a heading is written.
#[derive(Debug, Clone, Copy, PartialEq, Eq, Structural)]
pub enum HeadingStyle {
    /// Marker characters in front of the heading text.
    Atx,
    /// A line of `=` or `-` under the heading text.
    Setext,
}

/// Which character marks bold and italic text.
#[derive(Debug, Clone, Copy, PartialEq, Eq, Structural)]
pub enum EmphasisStyle {
    /// `*italic*` and `**bold**`.
    Asterisk,
    /// `_italic_` and `__bold__`.
    Underscore,
}

/// The style that the formatter writes in.
#[derive(Debug, Clone, Copy, PartialEq, Eq, Structural)]
pub struct FormattingOptions {
    pub indent_spaces: usize,
    pub line_width: usize,
    /// Whether an empty line stands between the blocks of a document.
    pub preserve_empty_lines: bool,
    pub heading_style: HeadingStyle,
    pub emphasis_style: EmphasisStyle,
}

impl FormattingOptions {
    /// The options that `default` gives.
    pub open spec fn spec_default() -> FormattingOptions {
        FormattingOptions {
            indent_spaces: 4,
            line_width: 80,
            preserve_empty_lines: true,
            heading_style: HeadingStyle::Atx,
            emphasis_style: EmphasisStyle::Asterisk,
        }
    }
}

impl Default for FormattingOptions {
    fn default() -> (options: FormattingOptions)
        ensures
            options == FormattingOptions::spec_default(),
    {
        FormattingOptions {
            indent_spaces: 4,
            line_width: 80,
            preserve_empty_lines: true,
            heading_style: HeadingStyle::Atx,
            emphasis_style: EmphasisStyle::Asterisk,
        }
    }
}

/// The character that marks bold and italic text in a style.
pub open spec fn emphasis_char(options: FormattingOptions) -> char {
    match options.emphasis_style {
        EmphasisStyle::Asterisk => '*',
        EmphasisStyle::Underscore => '_',
    }
}

/// What stands between two blocks of a document.
pub open spec fn block_separator(options: FormattingOptions) -> Seq<char> {
    if options.preserve_empty_lines {
        seq!['\n', '\n']
    } else {
        seq!['\n']
    }
}

/// `count` copies of a character.
pub open spec fn repeated(c: char, count: nat) -> Seq<char> {
    Seq::new(count, |i: int| c)
}

/// The character of the line under a heading of a level.
pub open spec fn underline_char(level: u8) -> char {
    if level == 1 {
        '='
    } else {
        '-'
    }
}

/// Whether the formatter can write a tree: it holds no error node.
pub open spec fn renderable(node: Cst) -> bool {
    forall|i: int| 0 <= i < node.preorder().len() ==> !(#[trigger] node.preorder()[i] is Error)
}

/// The text of a tree in a style. An error node has no text.
pub open spec fn rendered(node: Cst, options: FormattingOptions) -> Seq<char>
    decreases node, 0nat,
{
    match node {
        Cst::Document { children, .. } => rendered_joined(
            children,
            children.len(),
            block_separator(options),
            options,
        ),
        Cst::Heading { level, content, .. } => {
            let body = rendered_joined(content, content.len(), seq![' '], options);
            match options.heading_style {
                HeadingStyle::Atx => repeated('#', level as nat) + seq![' '] + body,
                HeadingStyle::Setext => body + seq!['\n'] + repeated(
                    underline_char(level),
                    body.len(),
                ),
            }
        },
        Cst::Paragraph { content, .. } => rendered_joined(
            content,
            content.len(),
            Seq::empty(),
            options,
        ),
        Cst::Text { content, .. } => content,
        Cst::Bold { content, .. } => repeated(emphasis_char(options), 2) + rendered_joined(
            content,
            content.len(),
            Seq::empty(),
            options,
        ) + repeated(emphasis_char(options), 2),
        Cst::Italic { content, .. } => repeated(emphasis_char(options), 1) + rendered_joined(
            content,
            content.len(),
            Seq::empty(),
            options,
        ) + repeated(emphasis_char(options), 1),
        Cst::LineBreak { .. } => seq!['\n'],
        Cst::Error { .. } => Seq::empty(),
    }
}

/// The texts of the first `count` of `nodes`, with `separator` between each
/// two.
pub open spec fn rendered_joined(
    nodes: Seq<Cst>,
    count: nat,
    separator: Seq<char>,
    options: FormattingOptions,
) -> Seq<char>
    decreases nodes, count,
{
    if count == 0 || count > nodes.len() {
        Seq::empty()
    } else if count == 1 {
        rendered(nodes[0], options)
    } else {
        rendered_joined(nodes, (count - 1) as nat, separator, options) + separator + rendered(
            nodes[count - 1],
            options,
        )
    }
}

/// Whether none of the first `count` of `nodes` holds an error node.
pub open spec fn all_renderable(nodes: Seq<Cst>, count: nat) -> bool {
    forall|i: int| 0 <= i < count && i < nodes.len() ==> renderable(#[trigger] nodes[i])
}

/// What the formatter says of an error node.
pub open spec fn no_rule_message() -> Seq<char> {
    "no rendering rule for an error node"@
}

/// A tree can be written exactly when its root is no error node and each of
/// its children can be written.
pub proof fn lemma_renderable_unfold(node: Cst)
    ensures
        renderable(node) <==> !(node is Error) && all_renderable(
            node.children(),
            node.children().len(),
        ),
{
    let kids = node.children();
    assert(node.preorder() =~= seq![node] + preorder_all(kids, kids.len()));
    lemma_preorder_all_members(kids, kids.len());
    if renderable(node) {
        assert(node.preorder()[0] == node);
        assert forall|i: int| 0 <= i < kids.len() implies renderable(#[trigger] kids[i]) by {
            assert forall|j: int| 0 <= j < kids[i].preorder().len() implies !(
            #[trigger] kids[i].preorder()[j] is Error) by {
                let item = kids[i].preorder()[j];
                assert(preorder_all(kids, kids.len()).contains(item));
                let k = choose|k: int|
                    0 <= k < preorder_all(kids, kids.len()).len()
                        && preorder_all(kids, kids.len())[k] == item;
                assert(node.preorder()[k + 1] == item);
            }
        }
    }
    if !(node is Error) && all_renderable(kids, kids.len()) {
        assert forall|i: int| 0 <= i < node.preorder().len() implies !(
        #[trigger] node.preorder()[i] is Error) by {
            if i > 0 {
                let item = node.preorder()[i];
                assert(preorder_all(kids, kids.len())[i - 1] == item);
                assert(preorder_all(kids, kids.len()).contains(item));
                let k = choose|k: int|
                    0 <= k < kids.len() && k < kids.len() && kids[k].preorder().contains(item);
                assert(renderable(kids[k]));
            }
        }
    }
}

/// What is called for each kind of node when a tree is walked through. Each
/// call is for a node of its kind; for a node of another kind it does
/// nothing.
pub trait Visitor {
    fn visit_document(&mut self, node: &CSTNode) -> Result<(), MarkdownError>;

    fn visit_heading(&mut self, node: &CSTNode, level: u8) -> Result<(), MarkdownError>;

    fn visit_paragraph(&mut self, node: &CSTNode) -> Result<(), MarkdownError>;

    fn visit_text(&mut self, node: &CSTNode) -> Result<(), MarkdownError>;

    fn visit_bold(&mut self, node: &CSTNode) -> Result<(), MarkdownError>;

    fn visit_italic(&mut self, node: &CSTNode) -> Result<(), MarkdownError>;

    fn visit_line_break(&mut self, node: &CSTNode) -> Result<(), MarkdownError>;
}

/// What a visit of the formatter leaves: the text of the node behind what
/// was written before, if the node is of the kind that the visit is for and
/// can be written; nothing new for a node of another kind.
pub open spec fn visited_as(
    before: MarkdownFormatter,
    after: MarkdownFormatter,
    done: Result<(), MarkdownError>,
    node: Cst,
    wanted: bool,
) -> bool {
    &&& after.options == before.options
    &&& after.indent_level == before.indent_level
    &&& !wanted ==> done is Ok && after.output@ == before.output@
    &&& wanted ==> (done is Ok <==> renderable(node))
    &&& wanted && done is Ok ==> after.output@ == before.output@ + rendered(node, before.options)
}

/// A formatter: its options and the text it has written.
pub struct MarkdownFormatter {
    pub options: FormattingOptions,
    pub output: String,
    pub indent_level: usize,
}

impl MarkdownFormatter {
    /// A formatter that has written nothing yet.
    pub fn new(options: FormattingOptions) -> (formatter: MarkdownFormatter)
        ensures
            formatter.options == options,
            formatter.output@.len() == 0,
            formatter.indent_level == 0,
    {
        MarkdownFormatter { options, output: String::new(), indent_level: 0 }
    }

    /// Writes a tree anew and returns its text. Fails on a tree that holds
    /// an error node, for which there is nothing to write.
    pub fn format(&mut self, node: &CSTNode) -> (text: Result<String, MarkdownError>)
        ensures
            final(self).options == old(self).options,
            final(self).indent_level == old(self).indent_level,
            text is Ok <==> renderable(node@),
            text matches Ok(written) ==> written@ == rendered(node@, old(self).options)
                && final(self).output@ == written@,
            text matches Err(error) ==> error matches MarkdownError::FormattingError(reason)
                && reason@ == no_rule_message(),
    {
        self.output = String::new();
        assert(self.output@ =~= Seq::<char>::empty());
        match self.visit_node(node) {
            Ok(()) => {
                assert(self.output@ =~= rendered(node@, self.options));
                Ok(self.output.clone())
            },
            Err(error) => Err(error),
        }
    }

    /// Writes one node behind what has been written.
    fn visit_node(&mut self, node: &CSTNode) -> (done: Result<(), MarkdownError>)
        ensures
            final(self).options == old(self).options,
            final(self).indent_level == old(self).indent_level,
            done is Ok <==> renderable(node@),
            done is Ok ==> final(self).output@ == old(self).output@ + rendered(
                node@,
                old(self).options,
            ),
            done matches Err(error) ==> error matches MarkdownError::FormattingError(reason)
                && reason@ == no_rule_message(),
        decreases node, 1nat,
    {
        let ghost before = self.output@;
        let ghost options = self.options;
        proof {
            lemma_renderable_unfold(node@);
        }
        match node {
            CSTNode::Document { children, .. } => {
                assert(cst_views(children@) =~= node@.children());
                let separator = if self.options.preserve_empty_lines {
                    "\n\n"
                } else {
                    "\n"
                };
                proof {
                    reveal_strlit("\n\n");
                    reveal_strlit("\n");
                    assert(separator@ =~= block_separator(options));
                }
                self.visit_joined(children, separator)
            },
            CSTNode::Heading { level, content, .. } => {
                assert(cst_views(content@) =~= node@.children());
                proof {
                    reveal_strlit(" ");
                    assert(" "@ =~= seq![' ']);
                }
                match self.options.heading_style {
                    HeadingStyle::Atx => {
                        push_repeated(&mut self.output, '#', *level as usize);
                        push_char(&mut self.output, ' ');
                        let ghost opened = self.output@;
                        match self.visit_joined(content, " ") {
                            Ok(()) => {
                                assert(self.output@ =~= before + rendered(node@, options));
                                Ok(())
                            },
                            Err(error) => Err(error),
                        }
                    },
                    HeadingStyle::Setext => {
                        let start = self.output.as_str().unicode_len();
                        match self.visit_joined(content, " ") {
                            Ok(()) => {
                                let end = self.output.as_str().unicode_len();
                                let ghost body = rendered_joined(
                                    node@.children(),
                                    node@.children().len(),
                                    seq![' '],
                                    options,
                                );
                                assert(end - start == body.len());
                                push_char(&mut self.output, '\n');
                                push_repeated(
                                    &mut self.output,
                                    if *level == 1 {
                                        '='
                                    } else {
                                        '-'
                                    },
                                    end - start,
                                );
                                assert(self.output@ =~= before + rendered(node@, options));
                                Ok(())
                            },
                            Err(error) => Err(error),
                        }
                    },
                }
            },
            CSTNode::Paragraph { content, .. } => {
                assert(cst_views(content@) =~= node@.children());
                proof {
                    reveal_strlit("");
                    assert(""@ =~= Seq::<char>::empty());
                }
                self.visit_joined(content, "")
            },
            CSTNode::Text { content, .. } => {
                self.output.append(content.as_str());
                Ok(())
            },
            CSTNode::Bold { content, .. } => {
                assert(cst_views(content@) =~= node@.children());
                proof {
                    reveal_strlit("");
                    assert(""@ =~= Seq::<char>::empty());
                }
                let marker = self.marker();
                push_repeated(&mut self.output, marker, 2);
                match self.visit_joined(content, "") {
                    Ok(()) => {
                        push_repeated(&mut self.output, marker, 2);
                        assert(self.output@ =~= before + rendered(node@, options));
                        Ok(())
                    },
                    Err(error) => Err(error),
                }
            },
            CSTNode::Italic { content, .. } => {
                assert(cst_views(content@) =~= node@.children());
                proof {
                    reveal_strlit("");
                    assert(""@ =~= Seq::<char>::empty());
                }
                let marker = self.marker();
                push_repeated(&mut self.output, marker, 1);
                match self.visit_joined(content, "") {
                    Ok(()) => {
                        push_repeated(&mut self.output, marker, 1);
                        assert(self.output@ =~= before + rendered(node@, options));
                        Ok(())
                    },
                    Err(error) => Err(error),
                }
            },
            CSTNode::LineBreak { .. } => {
                push_char(&mut self.output, '\n');
                assert(self.output@ =~= before + seq!['\n']);
                Ok(())
            },
            CSTNode::Error { .. } => {
                assert(node@.preorder()[0] is Error);
                Err(
                    MarkdownError::FormattingError(
                        "no rendering rule for an error node".to_owned(),
                    ),
                )
            },
        }
    }

    /// Writes a node if it is of the kind that is wanted.
    fn visit_if(&mut self, node: &CSTNode, wanted: bool) -> (done: Result<(), MarkdownError>)
        ensures
            visited_as(*old(self), *final(self), done, node@, wanted),
    {
        if wanted {
            self.visit_node(node)
        } else {
            Ok(())
        }
    }

    /// The character that marks bold and italic text.
    fn marker(&self) -> (c: char)
        ensures
            c == emphasis_char(self.options),
    {
        match self.options.emphasis_style {
            EmphasisStyle::Asterisk => '*',
            EmphasisStyle::Underscore => '_',
        }
    }

    /// Writes `nodes` with `separator` between each two.
    fn visit_joined(&mut self, nodes: &Vec<CSTNode>, separator: &str) -> (done: Result<
        (),
        MarkdownError,
    >)
        ensures
            final(self).options == old(self).options,
            final(self).indent_level == old(self).indent_level,
            done is Ok <==> all_renderable(cst_views(nodes@), nodes@.len()),
            done is Ok ==> final(self).output@ == old(self).output@ + rendered_joined(
                cst_views(nodes@),
                nodes@.len(),
                separator@,
                old(self).options,
            ),
            done matches Err(error) ==> error matches MarkdownError::FormattingError(reason)
                && reason@ == no_rule_message(),
        decreases nodes, 0nat,
    {
        let ghost before = self.output@;
        let ghost options = self.options;
        let ghost views = cst_views(nodes@);
        let mut i: usize = 0;
        assert(self.output@ =~= before + rendered_joined(views, 0, separator@, options));
        while i < nodes.len()
            invariant
                i <= nodes.len(),
                views == cst_views(nodes@),
                self.options == options,
                options == old(self).options,
                self.indent_level == old(self).indent_level,
                all_renderable(views, i as nat),
                self.output@ == before + rendered_joined(views, i as nat, separator@, options),
            decreases nodes.len() - i,
        {
            if i > 0 {
                self.output.append(separator);
            }
            match self.visit_node(&nodes[i]) {
                Ok(()) => {},
                Err(error) => {
                    assert(!renderable(views[i as int]));
                    return Err(error);
                },
            }
            i += 1;
            assert(self.output@ =~= before + rendered_joined(views, i as nat, separator@, options));
        }
        Ok(())
    }
}

impl Visitor for MarkdownFormatter {
    fn visit_document(&mut self, node: &CSTNode) -> (done: Result<(), MarkdownError>)
        ensures
            visited_as(*old(self), *final(self), done, node@, node@ is Document),
    {
        self.visit_if(node, matches!(node, CSTNode::Document { .. }))
    }

    fn visit_heading(&mut self, node: &CSTNode, level: u8) -> (done: Result<(), MarkdownError>)
        ensures
            visited_as(*old(self), *final(self), done, node@, node@ is Heading),
    {
        self.visit_if(node, matches!(node, CSTNode::Heading { .. }))
    }

    fn visit_paragraph(&mut self, node: &CSTNode) -> (done: Result<(), MarkdownError>)
        ensures
            visited_as(*old(self), *final(self), done, node@, node@ is Paragraph),
    {
        self.visit_if(node, matches!(node, CSTNode::Paragraph { .. }))
    }

    fn visit_text(&mut self, node: &CSTNode) -> (done: Result<(), MarkdownError>)
        ensures
            visited_as(*old(self), *final(self), done, node@, node@ is Text),
    {
        self.visit_if(node, matches!(node, CSTNode::Text { .. }))
    }

    fn visit_bold(&mut self, node: &CSTNode) -> (done: Result<(), MarkdownError>)
        ensures
            visited_as(*old(self), *final(self), done, node@, node@ is Bold),
    {
        self.visit_if(node, matches!(node, CSTNode::Bold { .. }))
    }

    fn visit_italic(&mut self, node: &CSTNode) -> (done: Result<(), MarkdownError>)
        ensures
            visited_as(*old(self), *final(self), done, node@, node@ is Italic),
    {
        self.visit_if(node, matches!(node, CSTNode::Italic { .. }))
    }

    fn visit_line_break(&mut self, node: &CSTNode) -> (done: Result<(), MarkdownError>)
        ensures
            visited_as(*old(self), *final(self), done, node@, node@ is LineBreak),
    {
        self.visit_if(node, matches!(node, CSTNode::LineBreak { .. }))
    }
}

/// An abstract tree as text: a heading is its markers, a space, what its
/// children are written as with spaces between them, and a line feed; the
/// children of a document are parted as its blocks are; every other node is
/// empty.
pub open spec fn ast_written(node: Ast, options: FormattingOptions) -> Seq<char>
    decreases node, 0nat,
{
    match node {
        Ast::Document(children) => ast_written_joined(
            children,
            children.len(),
            block_separator(options),
            options,
        ),
        Ast::Heading { level, content } => repeated('#', level as nat) + seq![' ']
            + ast_written_joined(content, content.len(), seq![' '], options) + seq!['\n'],
        _ => Seq::empty(),
    }
}

/// The first `count` of `nodes` as text, with `separator` between each two.
pub open spec fn ast_written_joined(
    nodes: Seq<Ast>,
    count: nat,
    separator: Seq<char>,
    options: FormattingOptions,
) -> Seq<char>
    decreases nodes, count,
{
    if count == 0 || count > nodes.len() {
        Seq::empty()
    } else if count == 1 {
        ast_written(nodes[0], options)
    } else {
        ast_written_joined(nodes, (count - 1) as nat, separator, options) + separator
            + ast_written(nodes[count - 1], options)
    }
}

impl ASTNode {
    /// The tree as text under the default options.
    pub fn to_text(&self) -> (text: String)
        ensures
            text@ == ast_written(self@, FormattingOptions::spec_default()),
    {
        let mut text = String::new();
        let options = FormattingOptions {
            indent_spaces: 4,
            line_width: 80,
            preserve_empty_lines: true,
            heading_style: HeadingStyle::Atx,
            emphasis_style: EmphasisStyle::Asterisk,
        };
        self.fmt_with_options(&mut text, &options);
        assert(text@ =~= ast_written(self@, options));
        text
    }

    /// Appends the tree as text under `options`.
    pub fn fmt_with_options(&self, output: &mut String, options: &FormattingOptions)
        ensures
            final(output)@ == old(output)@ + ast_written(self@, *options),
        decreases self, 1nat,
    {
        let ghost before = output@;
        match self {
            ASTNode::Document(children) => {
                assert(ast_views(children@) =~= self@.children());
                let separator = if options.preserve_empty_lines {
                    "\n\n"
                } else {
                    "\n"
                };
                proof {
                    reveal_strlit("\n\n");
                    reveal_strlit("\n");
                    assert(separator@ =~= block_separator(*options));
                }
                Self::fmt_joined(children, output, separator, options);
            },
            ASTNode::Heading { level, content } => {
                assert(ast_views(content@) =~= self@.children());
                proof {
                    reveal_strlit(" ");
                    assert(" "@ =~= seq![' ']);
                }
                push_repeated(output, '#', *level as usize);
                push_char(output, ' ');
                Self::fmt_joined(content, output, " ", options);
                push_char(output, '\n');
                assert(output@ =~= before + ast_written(self@, *options));
            },
            _ => {
                assert(output@ =~= before + ast_written(self@, *options));
            },
        }
    }

    /// Appends `nodes` as text with `separator` between each two.
    fn fmt_joined(
        nodes: &Vec<ASTNode>,
        output: &mut String,
        separator: &str,
        options: &FormattingOptions,
    )
        ensures
            final(output)@ == old(output)@ + ast_written_joined(
                ast_views(nodes@),
                nodes@.len(),
                separator@,
                *options,
            ),
        decreases nodes, 0nat,
    {
        let ghost before = output@;
        let ghost views = ast_views(nodes@);
        let mut i: usize = 0;
        assert(output@ =~= before + ast_written_joined(views, 0, separator@, *options));
        while i < nodes.len()
            invariant
                i <= nodes.len(),
                views == ast_views(nodes@),
                output@ == before + ast_written_joined(views, i as nat, separator@, *options),
            decreases nodes.len() - i,
        {
            if i > 0 {
                output.append(separator);
            }
            nodes[i].fmt_with_options(output, options);
            i += 1;
            assert(output@ =~= before + ast_written_joined(views, i as nat, separator@, *options));
        }
    }
}

} // verus!
