use crate::chain::{chain_view, Chain};
use crate::error_tree::{source_view, ErrorTree, ErrorTreeSource};
use crate::mishap::{mishap_view, mishap_views, Mishap, TreeImpl};
use crate::model::{chain_of_msgs, TreeView};
use indent_write::fmt::IndentWriter;
use std::fmt::Write;
use vstd::prelude::*;

verus! {

/// The rendering state at a fan-out point: `Single` when the enclosing node
/// has exactly one source, `Multi` when it has more than one.
#[derive(Clone, Copy, Debug, PartialEq, Eq, Structural)]
pub enum DisplayKind {
    Single,
    Multi,
}

/// `text` written through a line-indenting writer with prefix `p`: the prefix
/// is inserted before the first character of every non-empty line. `need`
/// says whether the writer stands at the start of a line (so that the first
/// non-empty line is prefixed too).
pub open spec fn indent_rec(p: Seq<char>, text: Seq<char>, need: bool) -> Seq<char>
    decreases text.len(),
{
    if text.len() == 0 {
        Seq::empty()
    } else {
        let c = text[0];
        let pre: Seq<char> = if need && c != '\n' {
            p
        } else {
            Seq::empty()
        };
        pre + seq![c] + indent_rec(p, text.drop_first(), c == '\n')
    }
}

/// Every non-empty line of `text` indented by `p`.
pub open spec fn indent_all(p: Seq<char>, text: Seq<char>) -> Seq<char> {
    indent_rec(p, text, true)
}

/// Every non-empty line of `text` but the first indented by `p`.
pub open spec fn indent_tail(p: Seq<char>, text: Seq<char>) -> Seq<char> {
    indent_rec(p, text, false)
}

/// Relies on `indent_write::fmt::IndentWriter::new` (and its `fmt::Write`
/// impl): the returned writer inserts `prefix` between each newline and a
/// following non-newline character, and before the first character written
/// if that character is not a newline. Writing into a `String` cannot fail.
#[verifier::external_body]
fn write_indented_all(prefix: &str, text: &str) -> (r: String)
    ensures
        r@ == indent_all(prefix@, text@),
{
    let mut out = String::new();
    let mut w = IndentWriter::new(prefix, &mut out);
    w.write_str(text).unwrap();
    out
}

/// Relies on `indent_write::fmt::IndentWriter::new_skip_initial` (and its
/// `fmt::Write` impl): as `IndentWriter::new`, except that no prefix is
/// inserted before the first line written.
#[verifier::external_body]
fn write_indented_tail(prefix: &str, text: &str) -> (r: String)
    ensures
        r@ == indent_tail(prefix@, text@),
{
    let mut out = String::new();
    let mut w = IndentWriter::new_skip_initial(prefix, &mut out);
    w.write_str(text).unwrap();
    out
}

/// The bullet glyph introducing a nested source, with its trailing space.
pub open spec fn glyph(k: DisplayKind) -> Seq<char> {
    if k is Single {
        "- "@
    } else {
        "+ "@
    }
}

/// The first line block of a nested node: the glyph, then the node's message
/// with every continuation line aligned under the text after the glyph, then
/// a newline.
pub open spec fn render_head(msg: Seq<char>, k: DisplayKind) -> Seq<char> {
    indent_tail("  "@, glyph(k) + msg + "\n"@)
}

/// The rendering of one nested node, relative to its enclosing indentation
/// level. `k` is the fan-out state of the enclosing node: it picks the glyph,
/// and it decides whether a single child is kept flat (`Single`) or indented
/// one extra level (`Multi`). Two or more children are always indented one
/// extra level and rendered in `Multi` state.
pub open spec fn render_nested(t: TreeView, k: DisplayKind) -> Seq<char>
    decreases t, 1int,
{
    let head = render_head(t.msg, k);
    if t.sources.len() == 0 {
        head
    } else if t.sources.len() == 1 {
        if k is Single {
            head + render_nested(t.sources[0], DisplayKind::Single)
        } else {
            head + indent_all("  "@, render_nested(t.sources[0], DisplayKind::Single))
        }
    } else {
        head + indent_all("  "@, render_list(t.sources))
    }
}

/// The renderings of sibling nodes under a `Multi` fan-out, concatenated in
/// order.
pub open spec fn render_list(ts: Seq<TreeView>) -> Seq<char>
    decreases ts, 0int,
{
    if ts.len() == 0 {
        Seq::empty()
    } else {
        render_nested(ts[0], DisplayKind::Multi) + render_list(ts.drop_first())
    }
}

/// The rendering of a whole tree: the root message verbatim; then, if the
/// root has any sources, a blank line, the banner `Caused by:`, another blank
/// line, and the sources indented one level, in `Single` state if the root
/// has exactly one and in `Multi` state otherwise.
pub open spec fn render_root(t: TreeView) -> Seq<char> {
    if t.sources.len() == 0 {
        t.msg
    } else if t.sources.len() == 1 {
        t.msg + "\n\nCaused by:\n\n"@ + indent_all(
            "  "@,
            render_nested(t.sources[0], DisplayKind::Single),
        )
    } else {
        t.msg + "\n\nCaused by:\n\n"@ + indent_all("  "@, render_list(t.sources))
    }
}

/// The rendering of a bare chain shown on its own: the outermost message,
/// then, if there is a cause, the banner without the blank line that the
/// tree rendering puts after it, and the remaining links flat, unindented,
/// in `Single` state.
pub open spec fn render_error_root(t: TreeView) -> Seq<char>
    recommends
        t.is_linear(),
{
    if t.sources.len() == 0 {
        t.msg
    } else {
        t.msg + "\n\nCaused by:\n"@ + render_nested(t.sources[0], DisplayKind::Single)
    }
}

/// A tree with no sources renders as exactly its message: no banner, no
/// bullets.
pub proof fn lemma_render_zero_sources(t: TreeView)
    requires
        t.sources.len() == 0,
    ensures
        render_root(t) == t.msg,
{
}

/// One newline-free line followed by a newline passes a tail-indenting
/// writer unchanged; the writer then stands at the start of a line.
proof fn lemma_indent_tail_line(p: Seq<char>, line: Seq<char>, rest: Seq<char>)
    requires
        !line.contains('\n'),
    ensures
        indent_rec(p, line + seq!['\n'] + rest, false) == line + seq!['\n'] + indent_rec(
            p,
            rest,
            true,
        ),
    decreases line.len(),
{
    let s = line + seq!['\n'] + rest;
    if line.len() == 0 {
        assert(s[0] == '\n');
        assert(s.drop_first() =~= rest);
        assert(indent_rec(p, s, false) =~= line + seq!['\n'] + indent_rec(p, rest, true));
    } else {
        if line[0] == '\n' {
            assert(line.contains('\n'));
        }
        assert(!line.drop_first().contains('\n')) by {
            if line.drop_first().contains('\n') {
                let i = choose|i: int|
                    0 <= i < line.drop_first().len() && line.drop_first()[i] == '\n';
                assert(line[i + 1] == '\n');
            }
        }
        lemma_indent_tail_line(p, line.drop_first(), rest);
        assert(s[0] == line[0]);
        assert(s.drop_first() =~= line.drop_first() + seq!['\n'] + rest);
        assert(indent_rec(p, s, false) =~= line + seq!['\n'] + indent_rec(p, rest, true));
    }
}

/// One non-empty newline-free line followed by a newline gains exactly the
/// prefix under an indenting writer standing at the start of a line.
proof fn lemma_indent_all_line(p: Seq<char>, line: Seq<char>, rest: Seq<char>)
    requires
        !line.contains('\n'),
        line.len() >= 1,
    ensures
        indent_rec(p, line + seq!['\n'] + rest, true) == p + line + seq!['\n'] + indent_rec(
            p,
            rest,
            true,
        ),
{
    let s = line + seq!['\n'] + rest;
    if line[0] == '\n' {
        assert(line.contains('\n'));
    }
    assert(s[0] == line[0]);
    assert(!line.drop_first().contains('\n')) by {
        if line.drop_first().contains('\n') {
            let i = choose|i: int| 0 <= i < line.drop_first().len() && line.drop_first()[i] == '\n';
            assert(line[i + 1] == '\n');
        }
    }
    lemma_indent_tail_line(p, line.drop_first(), rest);
    assert(s.drop_first() =~= line.drop_first() + seq!['\n'] + rest);
    assert(indent_rec(p, s, true) =~= p + line + seq!['\n'] + indent_rec(p, rest, true));
}

/// Indenting nothing writes nothing.
proof fn lemma_indent_empty(p: Seq<char>, need: bool)
    ensures
        indent_rec(p, Seq::empty(), need) == Seq::<char>::empty(),
{
}

/// One rendered bullet line: the indentation, the glyph, the message, a
/// newline.
pub open spec fn bullet_line(indent: Seq<char>, g: Seq<char>, msg: Seq<char>) -> Seq<char> {
    indent + g + msg + "\n"@
}

/// The head line of a newline-free message passes the tail-indenting writer
/// unchanged.
proof fn lemma_head_line_flat(msg: Seq<char>, k: DisplayKind)
    requires
        !msg.contains('\n'),
    ensures
        render_head(msg, k) == bullet_line(Seq::empty(), glyph(k), msg),
{
    reveal_strlit("- ");
    reveal_strlit("+ ");
    reveal_strlit("\n");
    let line = glyph(k) + msg;
    assert(!line.contains('\n')) by {
        if line.contains('\n') {
            let i = choose|i: int| 0 <= i < line.len() && line[i] == '\n';
            if i >= 2 {
                assert(msg[i - 2] == '\n');
            }
        }
    }
    lemma_indent_tail_line("  "@, line, Seq::empty());
    assert(glyph(k) + msg + "\n"@ =~= line + seq!['\n'] + Seq::<char>::empty());
    assert(render_head(msg, k) =~= bullet_line(Seq::empty(), glyph(k), msg));
}

/// The flat rendering of a list of messages: one `- ` bullet per message,
/// all at the same indentation.
pub open spec fn flat_bullets(msgs: Seq<Seq<char>>) -> Seq<char>
    decreases msgs.len(),
{
    if msgs.len() == 0 {
        Seq::empty()
    } else {
        bullet_line(Seq::empty(), "- "@, msgs[0]) + flat_bullets(msgs.drop_first())
    }
}

/// A linear chain rendered in `Single` state stays flat: every link becomes
/// one `- ` bullet line at the same indentation, however long the chain.
pub proof fn lemma_single_chain_flat(msgs: Seq<Seq<char>>)
    requires
        msgs.len() >= 1,
        forall|i: int| 0 <= i < msgs.len() ==> !(#[trigger] msgs[i]).contains('\n'),
    ensures
        render_nested(chain_of_msgs(msgs), DisplayKind::Single) == flat_bullets(msgs),
    decreases msgs.len(),
{
    let t = chain_of_msgs(msgs);
    lemma_head_line_flat(msgs[0], DisplayKind::Single);
    if msgs.len() == 1 {
        assert(flat_bullets(msgs.drop_first()) =~= Seq::<char>::empty());
        assert(render_nested(t, DisplayKind::Single) =~= flat_bullets(msgs));
    } else {
        assert(msgs.drop_first().len() >= 1);
        assert(forall|i: int|
            0 <= i < msgs.drop_first().len() ==> !(#[trigger] msgs.drop_first()[i]).contains(
                '\n',
            )) by {
            assert(forall|i: int|
                0 <= i < msgs.drop_first().len() ==> msgs.drop_first()[i] == msgs[i + 1]);
        }
        lemma_single_chain_flat(msgs.drop_first());
        assert(render_nested(t, DisplayKind::Single) =~= flat_bullets(msgs));
    }
}

/// The shape of a node with one message and one leaf child.
pub open spec fn node_over_leaf(msg: Seq<char>, child: Seq<char>) -> TreeView {
    TreeView {
        msg,
        sources: seq![TreeView { msg: child, sources: Seq::empty() }],
    }
}

/// A nested node with a single leaf child renders as its bullet head
/// followed by the child's bullet: flat after a `Single` parent, with the
/// child demoted one level after a `Multi` parent.
proof fn lemma_node_over_leaf_lines(msg: Seq<char>, child: Seq<char>, k: DisplayKind)
    requires
        !msg.contains('\n'),
        !child.contains('\n'),
    ensures
        render_nested(node_over_leaf(msg, child), DisplayKind::Single) == bullet_line(
            Seq::empty(),
            "- "@,
            msg,
        ) + bullet_line(Seq::empty(), "- "@, child),
        render_nested(node_over_leaf(msg, child), DisplayKind::Multi) == bullet_line(
            Seq::empty(),
            "+ "@,
            msg,
        ) + bullet_line("  "@, "- "@, child),
{
    reveal_strlit("- ");
    reveal_strlit("\n");
    let t = node_over_leaf(msg, child);
    lemma_head_line_flat(msg, DisplayKind::Single);
    lemma_head_line_flat(msg, DisplayKind::Multi);
    lemma_head_line_flat(child, DisplayKind::Single);
    let cline = "- "@ + child;
    assert(!cline.contains('\n')) by {
        if cline.contains('\n') {
            let i = choose|i: int| 0 <= i < cline.len() && cline[i] == '\n';
            if i >= 2 {
                assert(child[i - 2] == '\n');
            }
        }
    }
    assert(cline.len() >= 1);
    lemma_indent_all_line("  "@, cline, Seq::empty());
    assert(render_nested(t.sources[0], DisplayKind::Single) =~= cline + seq!['\n']
        + Seq::<char>::empty());
    assert(indent_all("  "@, cline + seq!['\n'] + Seq::<char>::empty()) =~= "  "@ + cline
        + seq!['\n']);
    assert(render_nested(t, DisplayKind::Single) =~= bullet_line(Seq::empty(), "- "@, msg)
        + bullet_line(Seq::empty(), "- "@, child));
    assert(render_nested(t, DisplayKind::Multi) =~= bullet_line(Seq::empty(), "+ "@, msg)
        + bullet_line("  "@, "- "@, child));
}

/// Indenting a concatenation of whole newline-terminated blocks indents each
/// block, when the writer starts and ends each block at a line start.
proof fn lemma_indent_all_bullets(
    p: Seq<char>,
    i1: Seq<char>,
    g1: Seq<char>,
    m1: Seq<char>,
    rest: Seq<char>,
)
    requires
        !m1.contains('\n'),
        !i1.contains('\n'),
        !g1.contains('\n'),
        (i1 + g1).len() >= 1,
    ensures
        indent_all(p, bullet_line(i1, g1, m1) + rest) == p + bullet_line(i1, g1, m1)
            + indent_all(p, rest),
{
    reveal_strlit("\n");
    let line = i1 + g1 + m1;
    assert(!line.contains('\n')) by {
        if line.contains('\n') {
            let i = choose|i: int| 0 <= i < line.len() && line[i] == '\n';
            if i < i1.len() {
                assert(i1[i] == '\n');
            } else if i < i1.len() + g1.len() {
                assert(g1[i - i1.len()] == '\n');
            } else {
                assert(m1[i - i1.len() - g1.len()] == '\n');
            }
        }
    }
    lemma_indent_all_line(p, line, rest);
    assert(bullet_line(i1, g1, m1) + rest =~= line + seq!['\n'] + rest);
    assert(p + line + seq!['\n'] + indent_rec(p, rest, true) =~= p + bullet_line(i1, g1, m1)
        + indent_all(p, rest));
}

/// Branching is visible: a root with two sibling tree sources, each holding
/// one leaf child, renders the two siblings with `+ ` bullets one level in,
/// and their children one level further with `- ` bullets. A root with one
/// tree source renders it with a `- ` bullet, its single child flat beside
/// it at the same level.
pub proof fn lemma_branch_visibility(
    root: Seq<char>,
    a: Seq<char>,
    a1: Seq<char>,
    b: Seq<char>,
    b1: Seq<char>,
)
    requires
        !a.contains('\n'),
        !a1.contains('\n'),
        !b.contains('\n'),
        !b1.contains('\n'),
    ensures
        render_root(
            TreeView {
                msg: root,
                sources: seq![node_over_leaf(a, a1), node_over_leaf(b, b1)],
            },
        ) == root + "\n\nCaused by:\n\n"@ + bullet_line("  "@, "+ "@, a) + bullet_line(
            "    "@,
            "- "@,
            a1,
        ) + bullet_line("  "@, "+ "@, b) + bullet_line("    "@, "- "@, b1),
        render_root(TreeView { msg: root, sources: seq![node_over_leaf(a, a1)] }) == root
            + "\n\nCaused by:\n\n"@ + bullet_line("  "@, "- "@, a) + bullet_line(
            "  "@,
            "- "@,
            a1,
        ),
{
    reveal_strlit("- ");
    reveal_strlit("+ ");
    reveal_strlit("  ");
    reveal_strlit("    ");
    lemma_node_over_leaf_lines(a, a1, DisplayKind::Single);
    lemma_node_over_leaf_lines(a, a1, DisplayKind::Multi);
    lemma_node_over_leaf_lines(b, b1, DisplayKind::Multi);

    // The branching root: two siblings rendered in `Multi` state, the whole
    // block indented one level.
    let two = TreeView { msg: root, sources: seq![node_over_leaf(a, a1), node_over_leaf(b, b1)] };
    let block_a = bullet_line(Seq::empty(), "+ "@, a) + bullet_line("  "@, "- "@, a1);
    let block_b = bullet_line(Seq::empty(), "+ "@, b) + bullet_line("  "@, "- "@, b1);
    assert(two.sources.drop_first() =~= seq![node_over_leaf(b, b1)]);
    assert(two.sources.drop_first().drop_first() =~= Seq::<TreeView>::empty());
    assert(render_list(two.sources.drop_first().drop_first()) =~= Seq::<char>::empty());
    assert(two.sources.drop_first()[0] == node_over_leaf(b, b1));
    assert(render_list(two.sources.drop_first()) =~= block_b + Seq::<char>::empty());
    assert(render_list(two.sources) =~= block_a + block_b);
    assert(indent_all("  "@, block_a + block_b) =~= "  "@ + bullet_line(Seq::empty(), "+ "@, a)
        + indent_all("  "@, bullet_line("  "@, "- "@, a1) + block_b)) by {
        lemma_indent_all_bullets("  "@, Seq::empty(), "+ "@, a, bullet_line("  "@, "- "@, a1) + block_b);
        assert(block_a + block_b =~= bullet_line(Seq::empty(), "+ "@, a) + (bullet_line(
            "  "@,
            "- "@,
            a1,
        ) + block_b));
    }
    lemma_indent_all_bullets("  "@, "  "@, "- "@, a1, block_b);
    assert(indent_all("  "@, bullet_line("  "@, "- "@, a1) + block_b) =~= "  "@ + bullet_line(
        "  "@,
        "- "@,
        a1,
    ) + indent_all("  "@, block_b));
    assert(indent_all("  "@, block_b) =~= "  "@ + bullet_line(Seq::empty(), "+ "@, b)
        + indent_all("  "@, bullet_line("  "@, "- "@, b1) + Seq::<char>::empty())) by {
        lemma_indent_all_bullets("  "@, Seq::empty(), "+ "@, b, bullet_line("  "@, "- "@, b1));
        assert(block_b =~= bullet_line(Seq::empty(), "+ "@, b) + (bullet_line("  "@, "- "@, b1)
            + Seq::<char>::empty()));
        assert(bullet_line("  "@, "- "@, b1) + Seq::<char>::empty() =~= bullet_line(
            "  "@,
            "- "@,
            b1,
        ));
    }
    lemma_indent_all_bullets("  "@, "  "@, "- "@, b1, Seq::empty());
    lemma_indent_empty("  "@, true);
    assert(indent_all("  "@, bullet_line("  "@, "- "@, b1)) =~= "  "@ + bullet_line(
        "  "@,
        "- "@,
        b1,
    )) by {
        assert(bullet_line("  "@, "- "@, b1) =~= bullet_line("  "@, "- "@, b1) + Seq::<char>::empty());
    }
    assert("  "@ + bullet_line(Seq::empty(), "+ "@, a) =~= bullet_line("  "@, "+ "@, a));
    assert("  "@ + bullet_line("  "@, "- "@, a1) =~= bullet_line("    "@, "- "@, a1));
    assert("  "@ + bullet_line(Seq::empty(), "+ "@, b) =~= bullet_line("  "@, "+ "@, b));
    assert("  "@ + bullet_line("  "@, "- "@, b1) =~= bullet_line("    "@, "- "@, b1));
    assert(render_root(two) =~= root + "\n\nCaused by:\n\n"@ + bullet_line("  "@, "+ "@, a)
        + bullet_line("    "@, "- "@, a1) + bullet_line("  "@, "+ "@, b) + bullet_line(
        "    "@,
        "- "@,
        b1,
    ));

    // The single-source root: the one source rendered in `Single` state, its
    // child flat, the whole block indented one level.
    let one = TreeView { msg: root, sources: seq![node_over_leaf(a, a1)] };
    let flat = bullet_line(Seq::empty(), "- "@, a) + bullet_line(Seq::empty(), "- "@, a1);
    assert(render_nested(one.sources[0], DisplayKind::Single) == flat);
    assert(indent_all("  "@, flat) =~= "  "@ + bullet_line(Seq::empty(), "- "@, a) + indent_all(
        "  "@,
        bullet_line(Seq::empty(), "- "@, a1),
    )) by {
        lemma_indent_all_bullets("  "@, Seq::empty(), "- "@, a, bullet_line(Seq::empty(), "- "@, a1));
    }
    assert(indent_all("  "@, bullet_line(Seq::empty(), "- "@, a1)) =~= "  "@ + bullet_line(
        Seq::empty(),
        "- "@,
        a1,
    )) by {
        lemma_indent_all_bullets("  "@, Seq::empty(), "- "@, a1, Seq::empty());
        assert(bullet_line(Seq::empty(), "- "@, a1) =~= bullet_line(Seq::empty(), "- "@, a1)
            + Seq::<char>::empty());
    }
    assert("  "@ + bullet_line(Seq::empty(), "- "@, a) =~= bullet_line("  "@, "- "@, a));
    assert("  "@ + bullet_line(Seq::empty(), "- "@, a1) =~= bullet_line("  "@, "- "@, a1));
    assert(render_root(one) =~= root + "\n\nCaused by:\n\n"@ + bullet_line("  "@, "- "@, a)
        + bullet_line("  "@, "- "@, a1));
}

/// Appending one more sibling to a `Multi` block appends its rendering.
pub proof fn lemma_render_list_push(ts: Seq<TreeView>, x: TreeView)
    ensures
        render_list(ts.push(x)) == render_list(ts) + render_nested(x, DisplayKind::Multi),
    decreases ts.len(),
{
    if ts.len() == 0 {
        assert(ts.push(x)[0] == x);
        assert(ts.push(x).drop_first() =~= ts);
        assert(render_list(ts.push(x)) =~= render_list(ts) + render_nested(x, DisplayKind::Multi));
    } else {
        lemma_render_list_push(ts.drop_first(), x);
        assert(ts.push(x).drop_first() =~= ts.drop_first().push(x));
        assert(render_list(ts.push(x)) =~= render_list(ts) + render_nested(x, DisplayKind::Multi));
    }
}

/// The rendering of a source shown on its own: a chain renders through the
/// bare-chain path, a tree through the tree path.
pub open spec fn render_source_root(s: ErrorTreeSource<'_>) -> Seq<char> {
    match s {
        ErrorTreeSource::Error(c) => render_error_root(chain_view(*c)),
        ErrorTreeSource::Tree(m) => render_root(mishap_view(*m)),
    }
}

/// A displayer for error trees, including their sources, in a tree-like
/// format.
pub struct ErrorTreeDisplay<'a, ET> {
    tree: &'a ET,
}

impl<'a, ET: ErrorTree> ErrorTreeDisplay<'a, ET> {
    /// The canonical shape of the displayed tree.
    pub closed spec fn canon(&self) -> TreeView {
        self.tree.canon()
    }

    /// Create a new displayer for the given error tree.
    pub fn new(tree: &'a ET) -> (r: Self)
        ensures
            r.canon() == tree.canon(),
    {
        ErrorTreeDisplay { tree }
    }

    /// The rendered text of the displayed tree.
    pub fn to_string(&self) -> (r: String)
        ensures
            r@ == render_root(self.canon()),
    {
        let m = Mishap::from_borrowed_tree(self.tree);
        display_tree(&m)
    }
}

/// A displayer for an error tree source in a tree-like format.
pub struct ErrorTreeSourceDisplay<'a> {
    source: ErrorTreeSource<'a>,
}

impl<'a> ErrorTreeSourceDisplay<'a> {
    /// The displayed source.
    pub closed spec fn src(&self) -> ErrorTreeSource<'a> {
        self.source
    }

    /// Create a new displayer for the given error tree source.
    pub fn new(source: ErrorTreeSource<'a>) -> (r: Self)
        ensures
            r.src() == source,
    {
        ErrorTreeSourceDisplay { source }
    }

    /// The rendered text of the displayed source.
    pub fn to_string(&self) -> (r: String)
        ensures
            r@ == render_source_root(self.src()),
    {
        match self.source {
            ErrorTreeSource::Error(error) => display_error(error),
            ErrorTreeSource::Tree(tree) => display_tree(tree),
        }
    }
}

/// Extension trait for error trees, providing the tree-format displayer.
pub trait ErrorTreeExt: ErrorTree + Sized {
    /// Displays the error tree in a tree-like format.
    fn display_tree(&self) -> (r: ErrorTreeDisplay<'_, Self>)
        ensures
            r.canon() == self.canon(),
    {
        ErrorTreeDisplay::new(self)
    }
}

impl<T: ErrorTree> ErrorTreeExt for T {

}

fn glyph_str(k: DisplayKind) -> (r: &'static str)
    ensures
        r@ == glyph(k),
{
    match k {
        DisplayKind::Single => "- ",
        DisplayKind::Multi => "+ ",
    }
}

/// The first line block of a nested node, executably.
fn head_line(msg: &String, k: DisplayKind) -> (r: String)
    ensures
        r@ == render_head(msg@, k),
{
    let mut text = String::from_str(glyph_str(k));
    text.append(msg.as_str());
    text.append("\n");
    write_indented_tail("  ", text.as_str())
}

/// Renders a whole error tree: the root message, and its sources under a
/// `Caused by:` banner per the fan-out rules.
pub fn display_tree(tree: &Mishap) -> (out: String)
    ensures
        out@ == render_root(tree@),
{
    let mut out = tree.display();
    let sources = tree.sources();
    let n = sources.len();
    if n == 0 {
        return out;
    }
    out.append("\n\nCaused by:\n\n");
    if n == 1 {
        let child = display_nested_source(sources[0], DisplayKind::Single);
        out.append(write_indented_all("  ", child.as_str()).as_str());
    } else {
        let mut body = String::new();
        for i in 0..n
            invariant
                n == sources.len(),
                n == tree@.sources.len(),
                forall|j: int| 0 <= j < n ==> source_view(sources@[j]) == tree@.sources[j],
                body@ == render_list(tree@.sources.take(i as int)),
            decreases n - i,
        {
            let child = display_nested_source(sources[i], DisplayKind::Multi);
            proof {
                lemma_render_list_push(tree@.sources.take(i as int), tree@.sources[i as int]);
                assert(tree@.sources.take(i + 1) =~= tree@.sources.take(i as int).push(
                    tree@.sources[i as int],
                ));
            }
            body.append(child.as_str());
        }
        proof {
            assert(tree@.sources.take(n as int) =~= tree@.sources);
        }
        out.append(write_indented_all("  ", body.as_str()).as_str());
    }
    out
}

/// Renders a bare chain of errors shown on its own: the outermost message,
/// the banner, and the remaining links flat in `Single` state.
pub fn display_error(error: &Chain) -> (out: String)
    ensures
        out@ == render_error_root(error@),
{
    let mut out = error.display();
    match error.cause() {
        Option::None => out,
        Option::Some(c) => {
            out.append("\n\nCaused by:\n");
            let child = display_nested_error(c, DisplayKind::Single);
            out.append(child.as_str());
            out
        },
    }
}

/// Renders one nested source, dispatching on its variant.
pub fn display_nested_source(source: ErrorTreeSource<'_>, parent_kind: DisplayKind) -> (out:
    String)
    ensures
        out@ == render_nested(source_view(source), parent_kind),
{
    match source {
        ErrorTreeSource::Error(error) => display_nested_error(error, parent_kind),
        ErrorTreeSource::Tree(tree) => display_nested_tree(tree, parent_kind),
    }
}

/// Renders one nested tree node: its head line, then its sources per the
/// fan-out rules.
pub fn display_nested_tree(tree: &Mishap, parent_kind: DisplayKind) -> (out: String)
    ensures
        out@ == render_nested(tree@, parent_kind),
    decreases *tree,
{
    match &*tree.kind {
        TreeImpl::Error(chain) => display_nested_error(chain, parent_kind),
        TreeImpl::Tree(w) => {
            proof {
                crate::mishap::lemma_mishap_views_index(w.sources@);
            }
            let head = head_line(&w.msg, parent_kind);
            let n = w.sources.len();
            if n == 0 {
                head
            } else if n == 1 {
                proof {
                    assert(decreases_to!(*tree => (*tree.kind)->Tree_0.sources@[0int]));
                }
                let child = display_nested_tree(&w.sources[0], DisplayKind::Single);
                match parent_kind {
                    DisplayKind::Single => head.concat(child.as_str()),
                    DisplayKind::Multi => head.concat(
                        write_indented_all("  ", child.as_str()).as_str(),
                    ),
                }
            } else {
                let mut body = String::new();
                for i in 0..n
                    invariant
                        *tree.kind == TreeImpl::Tree(*w),
                        n == w.sources.len(),
                        mishap_views(w.sources@).len() == n,
                        forall|j: int|
                            0 <= j < n ==> mishap_views(w.sources@)[j] == mishap_view(
                                w.sources@[j],
                            ),
                        body@ == render_list(mishap_views(w.sources@).take(i as int)),
                    decreases n - i,
                {
                    proof {
                        assert(decreases_to!(*tree => (*tree.kind)->Tree_0.sources@[i as int]));
                    }
                    let child = display_nested_tree(&w.sources[i], DisplayKind::Multi);
                    proof {
                        lemma_render_list_push(
                            mishap_views(w.sources@).take(i as int),
                            mishap_views(w.sources@)[i as int],
                        );
                        assert(mishap_views(w.sources@).take(i + 1) =~= mishap_views(
                            w.sources@,
                        ).take(i as int).push(mishap_views(w.sources@)[i as int]));
                    }
                    body.append(child.as_str());
                }
                proof {
                    assert(mishap_views(w.sources@).take(n as int) =~= mishap_views(w.sources@));
                }
                head.concat(write_indented_all("  ", body.as_str()).as_str())
            }
        },
    }
}

/// Renders one nested chain: one bullet line per link, the links after the
/// first kept flat in `Single` state and demoted one level in `Multi` state.
pub fn display_nested_error(error: &Chain, parent_kind: DisplayKind) -> (out: String)
    ensures
        out@ == render_nested(error@, parent_kind),
    decreases *error,
{
    let msg = error.display();
    let head = head_line(&msg, parent_kind);
    match &error.cause {
        Option::None => head,
        Option::Some(b) => {
            let child = display_nested_error(&**b, DisplayKind::Single);
            match parent_kind {
                DisplayKind::Single => head.concat(child.as_str()),
                DisplayKind::Multi => head.concat(write_indented_all("  ", child.as_str()).as_str()),
            }
        },
    }
}

} // verus!
