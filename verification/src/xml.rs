//! A small XML-like element layer: a generic element tree, a writer
//! that lays a tree out as markup text, and a reader that parses markup
//! text back into a tree. The manifest parser interprets such trees;
//! elements it does not model pass through here unharmed and are
//! ignored there, which is what makes the schema forward-compatible.
//!
//! The dialect is deliberately small: elements with double-quoted
//! attributes, child elements or raw text content, self-closing tags,
//! and whitespace between tags. There are no escapes: text and
//! attribute values run to the next delimiter.

use vstd::prelude::*;

verus! {

broadcast use vstd::std_specs::vec::axiom_vec_decreases_to_view;

/// The character can stand in an element or attribute name.
pub open spec fn is_name_char(c: char) -> bool {
    ('a' <= c && c <= 'z') || ('A' <= c && c <= 'Z') || ('0' <= c && c <= '9') || c == '_' || c
        == '-' || c == '.' || c == ':'
}

/// The character is markup whitespace.
pub open spec fn is_ws(c: char) -> bool {
    c == ' ' || c == '\n' || c == '\t' || c == '\r'
}

/// The mathematical content of a [`Node`].
#[verifier::ext_equal]
pub ghost struct NodeView {
    pub name: Seq<char>,
    pub attrs: Seq<(Seq<char>, Seq<char>)>,
    pub children: Seq<NodeView>,
    pub text: Seq<char>,
}

/// One element of a document: its name, its attributes in document
/// order, and either child elements or raw text content.
#[derive(Debug)]
pub struct Node {
    pub name: String,
    pub attrs: Vec<(String, String)>,
    pub children: Vec<Node>,
    pub text: String,
}

/// The views of attribute pairs, element by element.
pub open spec fn attr_views(attrs: Seq<(String, String)>) -> Seq<(Seq<char>, Seq<char>)> {
    attrs.map_values(|p: (String, String)| (p.0@, p.1@))
}

/// The view of one element: its parts, recursively.
pub open spec fn node_view(n: Node) -> NodeView
    decreases n,
{
    NodeView {
        name: n.name@,
        attrs: attr_views(n.attrs@),
        children: node_views(n.children@),
        text: n.text@,
    }
}

/// The views of a sequence of nodes, element by element.
pub open spec fn node_views(ns: Seq<Node>) -> Seq<NodeView>
    decreases ns,
{
    if ns.len() == 0 {
        Seq::empty()
    } else {
        seq![node_view(ns[0])] + node_views(ns.drop_first())
    }
}

/// `node_views` maps `node_view` over the sequence, index by index.
pub proof fn lemma_node_views(ns: Seq<Node>)
    ensures
        node_views(ns).len() == ns.len(),
        forall|i: int| 0 <= i < ns.len() ==> #[trigger] node_views(ns)[i] == node_view(ns[i]),
    decreases ns.len(),
{
    if ns.len() > 0 {
        lemma_node_views(ns.drop_first());
        assert forall|i: int| 0 <= i < ns.len() implies #[trigger] node_views(ns)[i] == node_view(
            ns[i],
        ) by {
            if i > 0 {
                assert(node_views(ns)[i] == node_views(ns.drop_first())[i - 1]);
                assert(ns.drop_first()[i - 1] == ns[i]);
            }
        }
    }
}

/// Appending a node appends its view.
pub proof fn lemma_node_views_push(ns: Seq<Node>, n: Node)
    ensures
        node_views(ns.push(n)) == node_views(ns).push(node_view(n)),
{
    lemma_node_views(ns.push(n));
    lemma_node_views(ns);
    assert forall|i: int| 0 <= i < ns.push(n).len() implies #[trigger] node_views(ns.push(n))[i]
        == node_views(ns).push(node_view(n))[i] by {
        if i < ns.len() {
            assert(ns.push(n)[i] == ns[i]);
        } else {
            assert(ns.push(n)[i] == n);
        }
    }
    assert(node_views(ns.push(n)) =~= node_views(ns).push(node_view(n)));
}

impl View for Node {
    type V = NodeView;

    open spec fn view(&self) -> NodeView {
        node_view(*self)
    }
}

impl Node {
    /// Builds an element from its parts.
    pub fn new(name: String, attrs: Vec<(String, String)>, children: Vec<Node>, text: String) -> (r:
        Node)
        ensures
            r@ == (NodeView {
                name: name@,
                attrs: attr_views(attrs@),
                children: node_views(children@),
                text: text@,
            }),
    {
        Node { name, attrs, children, text }
    }
}

/// The markup text of an attribute list: one leading space, the name,
/// `="`, the value, `"`, for each attribute in order.
pub open spec fn write_attrs(attrs: Seq<(Seq<char>, Seq<char>)>) -> Seq<char>
    decreases attrs.len(),
{
    if attrs.len() == 0 {
        Seq::empty()
    } else {
        seq![' '] + attrs[0].0 + seq!['=', '"'] + attrs[0].1 + seq!['"'] + write_attrs(
            attrs.drop_first(),
        )
    }
}

/// The markup text of an element: open tag with attributes, the
/// children's markup or the raw text, close tag.
pub open spec fn write_node(n: NodeView) -> Seq<char>
    decreases n,
{
    seq!['<'] + n.name + write_attrs(n.attrs) + seq!['>'] + write_children(n.children) + n.text
        + seq!['<', '/'] + n.name + seq!['>']
}

/// The markup text of a sequence of elements, in order.
pub open spec fn write_children(ns: Seq<NodeView>) -> Seq<char>
    decreases ns,
{
    if ns.len() == 0 {
        Seq::empty()
    } else {
        write_node(ns[0]) + write_children(ns.drop_first())
    }
}

/// Writing one more attribute appends its markup.
pub proof fn lemma_write_attrs_snoc(attrs: Seq<(Seq<char>, Seq<char>)>, a: (Seq<char>, Seq<char>))
    ensures
        write_attrs(attrs.push(a)) == write_attrs(attrs) + (seq![' '] + a.0 + seq!['=', '"'] + a.1
            + seq!['"']),
    decreases attrs.len(),
{
    if attrs.len() == 0 {
        assert(attrs.push(a).drop_first() =~= attrs);
        assert(attrs.push(a)[0] == a);
        assert(write_attrs(attrs.push(a)) =~= write_attrs(attrs) + (seq![' '] + a.0 + seq![
            '=',
            '"',
        ] + a.1 + seq!['"']));
    } else {
        assert(attrs.push(a).drop_first() =~= attrs.drop_first().push(a));
        lemma_write_attrs_snoc(attrs.drop_first(), a);
        assert(write_attrs(attrs.push(a)) =~= write_attrs(attrs) + (seq![' '] + a.0 + seq![
            '=',
            '"',
        ] + a.1 + seq!['"']));
    }
}

/// Writing one more child appends its markup.
pub proof fn lemma_write_children_snoc(ns: Seq<NodeView>, n: NodeView)
    ensures
        write_children(ns.push(n)) == write_children(ns) + write_node(n),
    decreases ns.len(),
{
    if ns.len() == 0 {
        assert(ns.push(n).drop_first() =~= ns);
        assert(ns.push(n)[0] == n);
        assert(write_children(ns.push(n)) =~= write_children(ns) + write_node(n));
    } else {
        assert(ns.push(n).drop_first() =~= ns.drop_first().push(n));
        lemma_write_children_snoc(ns.drop_first(), n);
        assert(write_children(ns.push(n)) =~= write_children(ns) + write_node(n));
    }
}

/// The position after any run of whitespace starting at `pos`.
pub open spec fn skip_ws(s: Seq<char>, pos: int) -> int
    decreases s.len() - pos,
{
    if pos < s.len() && is_ws(s[pos]) {
        skip_ws(s, pos + 1)
    } else {
        pos
    }
}

/// The position after the run of name characters starting at `pos`.
pub open spec fn name_end(s: Seq<char>, pos: int) -> int
    decreases s.len() - pos,
{
    if pos < s.len() && is_name_char(s[pos]) {
        name_end(s, pos + 1)
    } else {
        pos
    }
}

/// The first position at or after `pos` holding `c`, or the text's end.
pub open spec fn find_char(s: Seq<char>, pos: int, c: char) -> int
    decreases s.len() - pos,
{
    if pos < s.len() && s[pos] != c {
        find_char(s, pos + 1, c)
    } else {
        pos
    }
}

/// Reads attributes from `pos` on: whitespace, then `name="value"`
/// pairs until a character that starts no name. Returns the attributes
/// read and the position after the whitespace that follows them.
pub open spec fn read_attrs(
    s: Seq<char>,
    pos: int,
    acc: Seq<(Seq<char>, Seq<char>)>,
    fuel: nat,
) -> Option<(Seq<(Seq<char>, Seq<char>)>, int)>
    decreases fuel,
{
    if fuel == 0 {
        None
    } else {
        let p = skip_ws(s, pos);
        if p < s.len() && is_name_char(s[p]) {
            let ne = name_end(s, p);
            if ne < s.len() && s[ne] == '=' && ne + 1 < s.len() && s[ne + 1] == '"' {
                let vend = find_char(s, ne + 2, '"');
                if vend < s.len() {
                    read_attrs(
                        s,
                        vend + 1,
                        acc.push((s.subrange(p, ne), s.subrange(ne + 2, vend))),
                        (fuel - 1) as nat,
                    )
                } else {
                    None
                }
            } else {
                None
            }
        } else {
            Some((acc, p))
        }
    }
}

/// Reads the close tag `</name>` standing exactly at `pos`; returns the
/// position after it.
pub open spec fn read_close(s: Seq<char>, pos: int, name: Seq<char>) -> Option<int> {
    if pos + 1 < s.len() && s[pos] == '<' && s[pos + 1] == '/' {
        let ce = name_end(s, pos + 2);
        if s.subrange(pos + 2, ce) == name && ce < s.len() && s[ce] == '>' {
            Some(ce + 1)
        } else {
            None
        }
    } else {
        None
    }
}

/// Reads one element starting at `pos` (after any whitespace): its open
/// tag and attributes, then either `/>`, or `>` followed by raw text or
/// child elements and the matching close tag. Returns the element and
/// the position after its close.
pub open spec fn read_node(s: Seq<char>, pos: int, fuel: nat) -> Option<(NodeView, int)>
    decreases fuel,
{
    if fuel == 0 {
        None
    } else {
        let p = skip_ws(s, pos);
        if !(p < s.len() && s[p] == '<') {
            None
        } else {
            let ne = name_end(s, p + 1);
            if ne == p + 1 {
                None
            } else {
                let name = s.subrange(p + 1, ne);
                match read_attrs(s, ne, Seq::empty(), (fuel - 1) as nat) {
                    None => None,
                    Some((attrs, q)) => {
                        if q < s.len() && s[q] == '/' {
                            if q + 1 < s.len() && s[q + 1] == '>' {
                                Some(
                                    (
                                        NodeView {
                                            name,
                                            attrs,
                                            children: Seq::empty(),
                                            text: Seq::empty(),
                                        },
                                        q + 2,
                                    ),
                                )
                            } else {
                                None
                            }
                        } else if q < s.len() && s[q] == '>' {
                            let t = skip_ws(s, q + 1);
                            if t < s.len() && s[t] != '<' {
                                let te = find_char(s, t, '<');
                                match read_close(s, te, name) {
                                    Some(end) => Some(
                                        (
                                            NodeView {
                                                name,
                                                attrs,
                                                children: Seq::empty(),
                                                text: s.subrange(t, te),
                                            },
                                            end,
                                        ),
                                    ),
                                    None => None,
                                }
                            } else {
                                match read_children(s, q + 1, Seq::empty(), (fuel - 1) as nat) {
                                    None => None,
                                    Some((children, e)) => match read_close(s, e, name) {
                                        Some(end) => Some(
                                            (
                                                NodeView { name, attrs, children, text: Seq::empty() },
                                                end,
                                            ),
                                        ),
                                        None => None,
                                    },
                                }
                            }
                        } else {
                            None
                        }
                    },
                }
            }
        }
    }
}

/// Reads child elements from `pos` on, each preceded by optional
/// whitespace, until the next non-whitespace text is no open tag.
/// Returns the children read and the position after the whitespace
/// that follows them.
pub open spec fn read_children(s: Seq<char>, pos: int, acc: Seq<NodeView>, fuel: nat) -> Option<
    (Seq<NodeView>, int),
>
    decreases fuel,
{
    if fuel == 0 {
        None
    } else {
        let p = skip_ws(s, pos);
        if p < s.len() && s[p] == '<' && p + 1 < s.len() && s[p + 1] != '/' {
            match read_node(s, p, (fuel - 1) as nat) {
                None => None,
                Some((n, q)) => read_children(s, q, acc.push(n), (fuel - 1) as nat),
            }
        } else {
            Some((acc, p))
        }
    }
}

/// Reads a whole document: one root element with nothing but
/// whitespace after it.
pub open spec fn read_document(s: Seq<char>) -> Option<NodeView> {
    match read_node(s, 0, s.len() as nat) {
        None => None,
        Some((n, end)) => if skip_ws(s, end) == s.len() {
            Some(n)
        } else {
            None
        },
    }
}

/// Whether two markup strings are the same text.
pub fn str_eq(a: &str, b: &str) -> (r: bool)
    ensures
        r == (a@ == b@),
{
    let na = a.unicode_len();
    let nb = b.unicode_len();
    if na != nb {
        proof {
            assert(a@.len() != b@.len());
        }
        return false;
    }
    let mut i: usize = 0;
    while i < na
        invariant
            na == a@.len(),
            na == b@.len(),
            i <= na,
            forall|k: int| 0 <= k < i ==> a@[k] == b@[k],
        decreases na - i,
    {
        if a.get_char(i) != b.get_char(i) {
            return false;
        }
        i += 1;
    }
    proof {
        assert(a@ =~= b@);
    }
    true
}

/// Whether the character is markup whitespace.
fn is_ws_x(c: char) -> (r: bool)
    ensures
        r == is_ws(c),
{
    c == ' ' || c == '\n' || c == '\t' || c == '\r'
}

/// Whether the character can stand in a name.
fn is_name_char_x(c: char) -> (r: bool)
    ensures
        r == is_name_char(c),
{
    (c >= 'a' && c <= 'z') || (c >= 'A' && c <= 'Z') || (c >= '0' && c <= '9') || c == '_' || c
        == '-' || c == '.' || c == ':'
}

/// Skips whitespace from `pos` on.
fn skip_ws_x(s: &str, pos: usize, n: usize) -> (r: usize)
    requires
        n == s@.len(),
        pos <= n,
    ensures
        r == skip_ws(s@, pos as int),
        pos <= r <= n,
{
    let mut p = pos;
    while p < n && is_ws_x(s.get_char(p))
        invariant
            n == s@.len(),
            pos <= p <= n,
            skip_ws(s@, pos as int) == skip_ws(s@, p as int),
        decreases n - p,
    {
        p += 1;
    }
    p
}

/// Finds the end of the name run starting at `pos`.
fn name_end_x(s: &str, pos: usize, n: usize) -> (r: usize)
    requires
        n == s@.len(),
        pos <= n,
    ensures
        r == name_end(s@, pos as int),
        pos <= r <= n,
{
    let mut p = pos;
    while p < n && is_name_char_x(s.get_char(p))
        invariant
            n == s@.len(),
            pos <= p <= n,
            name_end(s@, pos as int) == name_end(s@, p as int),
        decreases n - p,
    {
        p += 1;
    }
    p
}

/// Finds the next occurrence of `c` at or after `pos`.
fn find_char_x(s: &str, pos: usize, c: char, n: usize) -> (r: usize)
    requires
        n == s@.len(),
        pos <= n,
    ensures
        r == find_char(s@, pos as int, c),
        pos <= r <= n,
{
    let mut p = pos;
    while p < n && s.get_char(p) != c
        invariant
            n == s@.len(),
            pos <= p <= n,
            find_char(s@, pos as int, c) == find_char(s@, p as int, c),
        decreases n - p,
    {
        p += 1;
    }
    p
}

/// Reads attributes from `pos` on, as [`read_attrs`] describes.
fn read_attrs_x(s: &str, pos: usize, acc: Vec<(String, String)>, fuel: usize, n: usize) -> (r:
    Option<(Vec<(String, String)>, usize)>)
    requires
        n == s@.len(),
        pos <= n,
    ensures
        ({
            let sp = read_attrs(s@, pos as int, attr_views(acc@), fuel as nat);
            match r {
                None => sp is None,
                Some((attrs, end)) => sp == Some((attr_views(attrs@), end as int)) && end <= n,
            }
        }),
    decreases fuel,
{
    if fuel == 0 {
        return None;
    }
    let p = skip_ws_x(s, pos, n);
    if p < n && is_name_char_x(s.get_char(p)) {
        let ne = name_end_x(s, p, n);
        if ne < n && s.get_char(ne) == '=' && ne + 1 < n && s.get_char(ne + 1) == '"' {
            let vend = find_char_x(s, ne + 2, '"', n);
            if vend < n {
                let name = s.substring_char(p, ne).to_owned();
                let value = s.substring_char(ne + 2, vend).to_owned();
                let ghost accv = attr_views(acc@);
                let mut acc2 = acc;
                acc2.push((name, value));
                proof {
                    assert(attr_views(acc2@) =~= accv.push(
                        (s@.subrange(p as int, ne as int), s@.subrange(ne + 2, vend as int)),
                    ));
                }
                read_attrs_x(s, vend + 1, acc2, fuel - 1, n)
            } else {
                None
            }
        } else {
            None
        }
    } else {
        Some((acc, p))
    }
}

/// Reads the close tag `</name>` standing exactly at `pos`, as
/// [`read_close`] describes.
fn read_close_x(s: &str, pos: usize, name: &String, n: usize) -> (r: Option<usize>)
    requires
        n == s@.len(),
        pos <= n,
    ensures
        ({
            let sp = read_close(s@, pos as int, name@);
            match r {
                None => sp is None,
                Some(end) => sp == Some(end as int) && end <= n,
            }
        }),
{
    if pos < n && pos + 1 < n && s.get_char(pos) == '<' && s.get_char(pos + 1) == '/' {
        let ce = name_end_x(s, pos + 2, n);
        if str_eq(s.substring_char(pos + 2, ce), name.as_str()) && ce < n && s.get_char(ce) == '>' {
            Some(ce + 1)
        } else {
            None
        }
    } else {
        None
    }
}

/// Reads one element starting at `pos`, as [`read_node`] describes.
fn read_node_x(s: &str, pos: usize, fuel: usize, n: usize) -> (r: Option<(Node, usize)>)
    requires
        n == s@.len(),
        pos <= n,
    ensures
        ({
            let sp = read_node(s@, pos as int, fuel as nat);
            match r {
                None => sp is None,
                Some((node, end)) => sp == Some((node@, end as int)) && end <= n,
            }
        }),
    decreases fuel,
{
    if fuel == 0 {
        return None;
    }
    let p = skip_ws_x(s, pos, n);
    if !(p < n && s.get_char(p) == '<') {
        return None;
    }
    let ne = name_end_x(s, p + 1, n);
    if ne == p + 1 {
        return None;
    }
    let name = s.substring_char(p + 1, ne).to_owned();
    match read_attrs_x(s, ne, Vec::new(), fuel - 1, n) {
        None => {
            proof {
                assert(attr_views(Seq::<(String, String)>::empty()) =~= Seq::<
                    (Seq<char>, Seq<char>),
                >::empty());
            }
            None
        },
        Some((attrs, q)) => {
            proof {
                assert(attr_views(Seq::<(String, String)>::empty()) =~= Seq::<
                    (Seq<char>, Seq<char>),
                >::empty());
            }
            if q < n && s.get_char(q) == '/' {
                if q + 1 < n && s.get_char(q + 1) == '>' {
                    let node = Node {
                        name,
                        attrs,
                        children: Vec::new(),
                        text: String::new(),
                    };
                    proof {
                        assert(node_views(Seq::<Node>::empty()) =~= Seq::<NodeView>::empty());
                    }
                    Some((node, q + 2))
                } else {
                    None
                }
            } else if q < n && s.get_char(q) == '>' {
                let t = skip_ws_x(s, q + 1, n);
                if t < n && s.get_char(t) != '<' {
                    let te = find_char_x(s, t, '<', n);
                    let text = s.substring_char(t, te).to_owned();
                    match read_close_x(s, te, &name, n) {
                        Some(end) => {
                            let node = Node { name, attrs, children: Vec::new(), text };
                            proof {
                                assert(node_views(Seq::<Node>::empty()) =~= Seq::<NodeView>::empty());
                            }
                            Some((node, end))
                        },
                        None => None,
                    }
                } else {
                    match read_children_x(s, q + 1, Vec::new(), fuel - 1, n) {
                        None => {
                            proof {
                                assert(node_views(Seq::<Node>::empty()) =~= Seq::<NodeView>::empty());
                            }
                            None
                        },
                        Some((children, e)) => {
                            proof {
                                assert(node_views(Seq::<Node>::empty()) =~= Seq::<NodeView>::empty());
                            }
                            match read_close_x(s, e, &name, n) {
                                Some(end) => {
                                    let node = Node { name, attrs, children, text: String::new() };
                                    Some((node, end))
                                },
                                None => None,
                            }
                        },
                    }
                }
            } else {
                None
            }
        },
    }
}

/// Reads child elements from `pos` on, as [`read_children`] describes.
fn read_children_x(s: &str, pos: usize, acc: Vec<Node>, fuel: usize, n: usize) -> (r: Option<
    (Vec<Node>, usize),
>)
    requires
        n == s@.len(),
        pos <= n,
    ensures
        ({
            let sp = read_children(s@, pos as int, node_views(acc@), fuel as nat);
            match r {
                None => sp is None,
                Some((children, end)) => sp == Some((node_views(children@), end as int)) && end
                    <= n,
            }
        }),
    decreases fuel,
{
    if fuel == 0 {
        return None;
    }
    let p = skip_ws_x(s, pos, n);
    if p < n && s.get_char(p) == '<' && p + 1 < n && s.get_char(p + 1) != '/' {
        match read_node_x(s, p, fuel - 1, n) {
            None => None,
            Some((node, q)) => {
                let ghost accs = acc@;
                let ghost accv = node_views(acc@);
                let ghost gn = node;
                let ghost nv = node@;
                let mut acc2 = acc;
                acc2.push(node);
                proof {
                    assert(acc2@ =~= accs.push(gn));
                    lemma_node_views(acc2@);
                    lemma_node_views(accs);
                    assert forall|i: int| 0 <= i < acc2@.len() implies #[trigger] node_views(
                        acc2@,
                    )[i] == accv.push(nv)[i] by {
                        if i < accs.len() {
                            assert(acc2@[i] == accs[i]);
                        } else {
                            assert(acc2@[i] == gn);
                        }
                    }
                    assert(node_views(acc2@) =~= accv.push(nv));
                }
                read_children_x(s, q, acc2, fuel - 1, n)
            },
        }
    } else {
        Some((acc, p))
    }
}

/// Parses a whole document into its root element: one element with
/// nothing but whitespace after it, exactly as [`read_document`] says.
pub fn parse_document(s: &str) -> (r: Option<Node>)
    ensures
        (r is None <==> read_document(s@) is None),
        r matches Some(node) ==> read_document(s@) == Some(node@),
{
    let n = s.unicode_len();
    match read_node_x(s, 0, n, n) {
        None => None,
        Some((node, end)) => {
            let t = skip_ws_x(s, end, n);
            if t == n {
                Some(node)
            } else {
                None
            }
        },
    }
}

/// Lays an element out as markup text.
pub fn render_node(n: &Node) -> (r: String)
    ensures
        r@ == write_node(n@),
    decreases *n,
{
    proof {
        reveal_strlit("<");
        reveal_strlit(">");
        reveal_strlit("</");
        reveal_strlit(" ");
        reveal_strlit("=\"");
        reveal_strlit("\"");
    }
    let mut out: String = "<".to_owned();
    out.append(n.name.as_str());
    proof {
        assert(out@ =~= seq!['<'] + n@.name + write_attrs(attr_views(n.attrs@).subrange(0, 0)));
    }
    let mut i: usize = 0;
    while i < n.attrs.len()
        invariant
            i <= n.attrs.len(),
            out@ == seq!['<'] + n@.name + write_attrs(attr_views(n.attrs@).subrange(0, i as int)),
        decreases n.attrs.len() - i,
    {
        out.append(" ");
        out.append(n.attrs[i].0.as_str());
        out.append("=\"");
        out.append(n.attrs[i].1.as_str());
        out.append("\"");
        proof {
            reveal_strlit(" ");
            reveal_strlit("=\"");
            reveal_strlit("\"");
            let av = attr_views(n.attrs@);
            assert(av.subrange(0, i + 1) =~= av.subrange(0, i as int).push(av[i as int]));
            lemma_write_attrs_snoc(av.subrange(0, i as int), av[i as int]);
            assert(out@ =~= seq!['<'] + n@.name + write_attrs(av.subrange(0, i + 1)));
        }
        i += 1;
    }
    proof {
        assert(attr_views(n.attrs@).subrange(0, attr_views(n.attrs@).len() as int) =~= attr_views(
            n.attrs@,
        ));
        assert(attr_views(n.attrs@) == n@.attrs);
    }
    out.append(">");
    proof {
        lemma_node_views(n.children@);
    }
    let mut j: usize = 0;
    while j < n.children.len()
        invariant
            j <= n.children.len(),
            out@ == seq!['<'] + n@.name + write_attrs(n@.attrs) + seq!['>'] + write_children(
                node_views(n.children@).subrange(0, j as int),
            ),
        decreases n.children.len() - j,
    {
        let piece = render_node(&n.children[j]);
        out.append(piece.as_str());
        proof {
            lemma_node_views(n.children@);
            let cv = node_views(n.children@);
            assert(cv[j as int] == n.children@[j as int]@);
            assert(cv.subrange(0, j + 1) =~= cv.subrange(0, j as int).push(cv[j as int]));
            lemma_write_children_snoc(cv.subrange(0, j as int), cv[j as int]);
            assert(out@ =~= seq!['<'] + n@.name + write_attrs(n@.attrs) + seq!['>']
                + write_children(cv.subrange(0, j + 1)));
        }
        j += 1;
    }
    proof {
        lemma_node_views(n.children@);
        assert(node_views(n.children@).subrange(0, node_views(n.children@).len() as int)
            =~= node_views(n.children@));
        assert(node_views(n.children@) == n@.children);
        assert(out@ == seq!['<'] + n@.name + write_attrs(n@.attrs) + seq!['>'] + write_children(
            n@.children,
        ));
    }
    out.append(n.text.as_str());
    out.append("</");
    out.append(n.name.as_str());
    out.append(">");
    proof {
        reveal_strlit("<");
        reveal_strlit(">");
        reveal_strlit("</");
        assert(out@ =~= write_node(n@));
    }
    out
}

/// The text can stand as an element or attribute name in markup.
pub open spec fn wf_name(s: Seq<char>) -> bool {
    s.len() > 0 && forall|i: int| 0 <= i < s.len() ==> is_name_char(#[trigger] s[i])
}

/// The text can stand as a double-quoted attribute value in markup.
pub open spec fn wf_value(s: Seq<char>) -> bool {
    forall|i: int| 0 <= i < s.len() ==> #[trigger] s[i] != '"'
}

/// The text can stand as element content in markup: it holds no tag
/// start, and it does not begin with whitespace (which reading would
/// drop).
pub open spec fn wf_text(s: Seq<char>) -> bool {
    &&& forall|i: int| 0 <= i < s.len() ==> #[trigger] s[i] != '<'
    &&& (s.len() > 0 ==> !is_ws(s[0]))
}

/// The element can be laid out as markup and read back: its names and
/// values are markup-clean, text and children are not mixed, and the
/// same holds below.
pub open spec fn wf_node(n: NodeView) -> bool
    decreases n,
{
    &&& wf_name(n.name)
    &&& (forall|i: int| 0 <= i < n.attrs.len() ==> wf_name((#[trigger] n.attrs[i]).0) && wf_value(
        n.attrs[i].1,
    ))
    &&& wf_text(n.text)
    &&& (n.text.len() > 0 ==> n.children.len() == 0)
    &&& wf_children(n.children)
}

/// Every element of the run is well formed.
pub open spec fn wf_children(cs: Seq<NodeView>) -> bool
    decreases cs,
{
    if cs.len() == 0 {
        true
    } else {
        wf_node(cs[0]) && wf_children(cs.drop_first())
    }
}

/// The reader fuel that suffices for one element.
pub open spec fn node_fuel(n: NodeView) -> nat
    decreases n,
{
    (2 + n.attrs.len() + children_fuel(n.children)) as nat
}

/// The reader fuel that suffices for a run of child elements.
pub open spec fn children_fuel(cs: Seq<NodeView>) -> nat
    decreases cs,
{
    if cs.len() == 0 {
        1
    } else {
        (2 + node_fuel(cs[0]) + children_fuel(cs.drop_first())) as nat
    }
}

/// An element's markup is longer than the fuel it needs, with margin.
pub proof fn lemma_write_len_covers_fuel(n: NodeView)
    requires
        wf_node(n),
    ensures
        write_node(n).len() >= node_fuel(n) + 3,
    decreases n,
{
    lemma_write_attrs_len(n.attrs);
    lemma_write_children_len_covers_fuel(n.children);
}

/// An attribute list's markup is at least five characters per pair.
pub proof fn lemma_write_attrs_len(attrs: Seq<(Seq<char>, Seq<char>)>)
    requires
        forall|i: int| 0 <= i < attrs.len() ==> (#[trigger] attrs[i]).0.len() > 0,
    ensures
        write_attrs(attrs).len() >= 5 * attrs.len(),
    decreases attrs.len(),
{
    if attrs.len() > 0 {
        assert(forall|i: int| 0 <= i < attrs.drop_first().len() ==> (#[trigger] attrs.drop_first()[i]).0.len() > 0);
        lemma_write_attrs_len(attrs.drop_first());
    }
}

/// A child run's markup nearly covers the fuel it needs.
pub proof fn lemma_write_children_len_covers_fuel(cs: Seq<NodeView>)
    requires
        wf_children(cs),
    ensures
        write_children(cs).len() + 2 >= children_fuel(cs),
    decreases cs,
{
    if cs.len() > 0 {
        lemma_write_len_covers_fuel(cs[0]);
        lemma_write_children_len_covers_fuel(cs.drop_first());
    }
}

/// Whitespace characters start no name.
pub proof fn lemma_ws_is_no_name_char(c: char)
    ensures
        is_ws(c) ==> !is_name_char(c),
        is_name_char(c) ==> !is_ws(c),
{
}

/// Skipping whitespace at a non-whitespace position stays put.
pub proof fn lemma_skip_ws_at(s: Seq<char>, pos: int)
    requires
        0 <= pos,
        pos < s.len() ==> !is_ws(s[pos]),
    ensures
        skip_ws(s, pos) == pos,
{
}

/// The name run over a region of name characters ends exactly at the
/// first character that is none.
pub proof fn lemma_name_end_range(s: Seq<char>, a: int, b: int)
    requires
        0 <= a <= b <= s.len(),
        forall|k: int| a <= k < b ==> is_name_char(#[trigger] s[k]),
        b < s.len() ==> !is_name_char(s[b]),
    ensures
        name_end(s, a) == b,
    decreases b - a,
{
    if a < b {
        lemma_name_end_range(s, a + 1, b);
    }
}

/// The search for a character over a region free of it finds exactly
/// its next occurrence.
pub proof fn lemma_find_char_range(s: Seq<char>, a: int, b: int, c: char)
    requires
        0 <= a <= b <= s.len(),
        forall|k: int| a <= k < b ==> #[trigger] s[k] != c,
        b < s.len() ==> s[b] == c,
    ensures
        find_char(s, a, c) == b,
    decreases b - a,
{
    if a < b {
        lemma_find_char_range(s, a + 1, b, c);
    }
}

/// Reading attributes over a region that holds exactly an attribute
/// list's markup, followed by a character that neither is whitespace
/// nor can start a name, yields those attributes and stops at that
/// character.
#[verifier::rlimit(50)]
pub proof fn lemma_read_attrs_region(
    s: Seq<char>,
    pos: int,
    attrs: Seq<(Seq<char>, Seq<char>)>,
    acc: Seq<(Seq<char>, Seq<char>)>,
    fuel: nat,
)
    requires
        0 <= pos,
        pos + write_attrs(attrs).len() < s.len(),
        s.subrange(pos, pos + write_attrs(attrs).len()) == write_attrs(attrs),
        forall|i: int| 0 <= i < attrs.len() ==> wf_name((#[trigger] attrs[i]).0) && wf_value(
            attrs[i].1,
        ),
        !is_ws(s[pos + write_attrs(attrs).len()]),
        !is_name_char(s[pos + write_attrs(attrs).len()]),
        fuel >= attrs.len() + 1,
    ensures
        read_attrs(s, pos, acc, fuel) == Some((acc + attrs, pos + write_attrs(attrs).len())),
    decreases attrs.len(),
{
    let wa = write_attrs(attrs);
    let end = pos + wa.len();
    assert forall|i: int| 0 <= i < wa.len() implies s[pos + i] == wa[i] by {
        assert(s.subrange(pos, end)[i] == s[pos + i]);
    }
    if attrs.len() == 0 {
        lemma_skip_ws_at(s, pos);
        assert(acc + attrs =~= acc);
    } else {
        let k = attrs[0].0;
        let v = attrs[0].1;
        let rest = attrs.drop_first();
        assert(wa == seq![' '] + k + seq!['=', '"'] + v + seq!['"'] + write_attrs(rest));
        let kstart = pos + 1;
        let kend = kstart + k.len();
        let vstart = kend + 2;
        let vend = vstart + v.len();
        let pos2 = vend + 1;
        assert(pos2 == pos + 4 + k.len() + v.len());
        assert(wa.len() == 4 + k.len() + v.len() + write_attrs(rest).len());
        assert(wa[0] == ' ');
        assert forall|j: int| kstart <= j < kend implies s[j] == k[j - kstart] by {
            assert(wa[j - pos] == k[j - kstart]);
        }
        assert forall|j: int| vstart <= j < vend implies s[j] == v[j - vstart] by {
            assert(wa[j - pos] == v[j - vstart]);
        }
        assert(s[pos] == ' ');
        assert(wa[kend - pos] == '=');
        assert(wa[kend + 1 - pos] == '"');
        assert(wa[vend - pos] == '"');
        assert(s[kend] == '=' && s[kend + 1] == '"' && s[vend] == '"');
        assert(s[kstart] == k[0]);
        assert(is_name_char(k[0]));
        lemma_ws_is_no_name_char(k[0]);
        lemma_skip_ws_at(s, pos + 1);
        assert(skip_ws(s, pos) == pos + 1);
        assert forall|j: int| kstart <= j < kend implies is_name_char(#[trigger] s[j]) by {
            assert(s[j] == k[j - kstart]);
        }
        assert(!is_name_char('='));
        lemma_name_end_range(s, kstart, kend);
        assert(s.subrange(kstart, kend) =~= k);
        assert forall|j: int| vstart <= j < vend implies #[trigger] s[j] != '"' by {
            assert(s[j] == v[j - vstart]);
        }
        lemma_find_char_range(s, vstart, vend, '"');
        assert(s.subrange(vstart, vend) =~= v);
        assert forall|i: int| 0 <= i < write_attrs(rest).len() implies s.subrange(
            pos2,
            pos2 + write_attrs(rest).len(),
        )[i] == write_attrs(rest)[i] by {
            assert(s.subrange(pos2, pos2 + write_attrs(rest).len())[i] == s[pos2 + i]);
            assert(wa[pos2 - pos + i] == write_attrs(rest)[i]);
        }
        assert(s.subrange(pos2, pos2 + write_attrs(rest).len()) =~= write_attrs(rest));
        assert(forall|i: int|
            0 <= i < rest.len() ==> wf_name((#[trigger] rest[i]).0) && wf_value(rest[i].1));
        lemma_read_attrs_region(s, pos2, rest, acc.push((k, v)), (fuel - 1) as nat);
        assert(acc.push((k, v)) + rest =~= acc + attrs);
        assert(read_attrs(s, pos, acc, fuel) == read_attrs(
            s,
            pos2,
            acc.push((s.subrange(kstart, kend), s.subrange(vstart, vend))),
            (fuel - 1) as nat,
        ));
    }
}

/// Reading an element over a region that holds exactly its markup
/// yields the element and stops right after its close tag.
#[verifier::rlimit(100)]
pub proof fn lemma_read_write_node(s: Seq<char>, pos: int, n: NodeView, fuel: nat)
    requires
        wf_node(n),
        0 <= pos,
        pos + write_node(n).len() <= s.len(),
        s.subrange(pos, pos + write_node(n).len()) == write_node(n),
        fuel >= node_fuel(n),
    ensures
        read_node(s, pos, fuel) == Some((n, pos + write_node(n).len())),
    decreases n,
{
    let w = write_node(n);
    let nl = n.name.len() as int;
    let wa = write_attrs(n.attrs);
    let wc = write_children(n.children);
    let o1 = pos + 1;
    let o2 = o1 + nl;
    let o3 = o2 + wa.len();
    let o4 = o3 + 1;
    let o5 = o4 + wc.len() + n.text.len();
    let o6 = o5 + 2;
    let o7 = o6 + nl;
    let end = o7 + 1;
    assert(w.len() == 5 + 2 * nl + wa.len() + wc.len() + n.text.len());
    assert(end == pos + w.len());
    assert forall|i: int| 0 <= i < w.len() implies s[pos + i] == w[i] by {
        assert(s.subrange(pos, pos + w.len())[i] == s[pos + i]);
    }
    assert(w[0] == '<');
    assert(s[pos] == '<');
    assert(!is_ws('<'));
    lemma_skip_ws_at(s, pos);
    assert forall|j: int| o1 <= j < o2 implies s[j] == n.name[j - o1] by {
        assert(w[j - pos] == n.name[j - o1]);
    }
    assert forall|j: int| o1 <= j < o2 implies is_name_char(#[trigger] s[j]) by {
        assert(s[j] == n.name[j - o1]);
    }
    if n.attrs.len() > 0 {
        assert(wa == seq![' '] + n.attrs[0].0 + seq!['=', '"'] + n.attrs[0].1 + seq!['"']
            + write_attrs(n.attrs.drop_first()));
        assert(wa[0] == ' ');
        assert(w[o2 - pos] == ' ');
        assert(s[o2] == ' ');
        assert(!is_name_char(' '));
    } else {
        assert(w[o2 - pos] == '>');
        assert(s[o2] == '>');
        assert(!is_name_char('>'));
    }
    lemma_name_end_range(s, o1, o2);
    assert(o2 != o1);
    assert(s.subrange(o1, o2) =~= n.name);
    assert forall|i: int| 0 <= i < wa.len() implies s.subrange(o2, o3)[i] == wa[i] by {
        assert(s.subrange(o2, o3)[i] == s[o2 + i]);
        assert(w[o2 - pos + i] == wa[i]);
    }
    assert(s.subrange(o2, o3) =~= wa);
    assert(w[o3 - pos] == '>');
    assert(s[o3] == '>');
    assert(!is_ws('>') && !is_name_char('>'));
    assert(children_fuel(n.children) >= 1);
    lemma_read_attrs_region(s, o2, n.attrs, Seq::empty(), (fuel - 1) as nat);
    assert(Seq::empty() + n.attrs =~= n.attrs);
    assert('>' != '/');
    assert(w[o5 - pos] == '<');
    assert(w[o5 + 1 - pos] == '/');
    assert(s[o5] == '<' && s[o5 + 1] == '/');
    assert forall|j: int| o6 <= j < o7 implies s[j] == n.name[j - o6] by {
        assert(w[j - pos] == n.name[j - o6]);
    }
    assert forall|j: int| o6 <= j < o7 implies is_name_char(#[trigger] s[j]) by {
        assert(s[j] == n.name[j - o6]);
    }
    assert(w[o7 - pos] == '>');
    assert(s[o7] == '>');
    lemma_name_end_range(s, o6, o7);
    assert(s.subrange(o6, o7) =~= n.name);
    assert(read_close(s, o5, n.name) == Some(end)) by {
        assert(o5 + 1 < s.len());
    }
    if n.text.len() > 0 {
        assert(n.children.len() == 0);
        assert(wc =~= Seq::<char>::empty());
        assert(o5 == o4 + n.text.len());
        assert forall|j: int| o4 <= j < o5 implies s[j] == n.text[j - o4] by {
            assert(w[j - pos] == n.text[j - o4]);
        }
        assert(s[o4] == n.text[0]);
        assert(!is_ws(n.text[0]));
        lemma_skip_ws_at(s, o4);
        assert(s[o4] != '<');
        assert forall|j: int| o4 <= j < o5 implies #[trigger] s[j] != '<' by {
            assert(s[j] == n.text[j - o4]);
        }
        lemma_find_char_range(s, o4, o5, '<');
        assert(s.subrange(o4, o5) =~= n.text);
        assert(n.children =~= Seq::<NodeView>::empty());
        assert(read_node(s, pos, fuel) == Some(
            (
                NodeView {
                    name: s.subrange(o1, o2),
                    attrs: n.attrs,
                    children: Seq::empty(),
                    text: s.subrange(o4, o5),
                },
                end,
            ),
        ));
    } else {
        assert(o5 == o4 + wc.len());
        assert forall|i: int| 0 <= i < wc.len() implies s.subrange(o4, o5)[i] == wc[i] by {
            assert(s.subrange(o4, o5)[i] == s[o4 + i]);
            assert(w[o4 - pos + i] == wc[i]);
        }
        assert(s.subrange(o4, o5) =~= wc);
        if n.children.len() > 0 {
            assert(wc == write_node(n.children[0]) + write_children(n.children.drop_first()));
            assert(write_node(n.children[0])[0] == '<');
            assert(wc[0] == '<');
            assert(w[o4 - pos] == '<');
            assert(s[o4] == '<');
        } else {
            assert(wc.len() == 0);
            assert(o4 == o5);
            assert(s[o4] == '<');
        }
        lemma_skip_ws_at(s, o4);
        lemma_read_children_region(s, o4, n.children, Seq::empty(), (fuel - 1) as nat);
        assert(Seq::empty() + n.children =~= n.children);
        assert(n.text =~= Seq::<char>::empty());
        assert(read_node(s, pos, fuel) == Some(
            (
                NodeView {
                    name: s.subrange(o1, o2),
                    attrs: n.attrs,
                    children: n.children,
                    text: Seq::empty(),
                },
                end,
            ),
        ));
    }
}

/// Reading child elements over a region that holds exactly their
/// markup, followed by a close tag's `</`, yields the children and
/// stops at the close tag.
#[verifier::rlimit(100)]
pub proof fn lemma_read_children_region(
    s: Seq<char>,
    pos: int,
    cs: Seq<NodeView>,
    acc: Seq<NodeView>,
    fuel: nat,
)
    requires
        wf_children(cs),
        0 <= pos,
        pos + write_children(cs).len() + 1 < s.len(),
        s.subrange(pos, pos + write_children(cs).len()) == write_children(cs),
        s[pos + write_children(cs).len()] == '<',
        s[pos + write_children(cs).len() + 1] == '/',
        fuel >= children_fuel(cs),
    ensures
        read_children(s, pos, acc, fuel) == Some((acc + cs, pos + write_children(cs).len())),
    decreases cs,
{
    let wc = write_children(cs);
    assert forall|i: int| 0 <= i < wc.len() implies s[pos + i] == wc[i] by {
        assert(s.subrange(pos, pos + wc.len())[i] == s[pos + i]);
    }
    if cs.len() == 0 {
        assert(wc.len() == 0);
        assert(s[pos] == '<');
        assert(!is_ws('<'));
        lemma_skip_ws_at(s, pos);
        assert(acc + cs =~= acc);
    } else {
        let c0 = cs[0];
        let rest = cs.drop_first();
        let w0 = write_node(c0);
        assert(wc == w0 + write_children(rest));
        assert(w0[0] == '<');
        assert(wc[0] == '<');
        assert(s[pos] == '<');
        assert(!is_ws('<'));
        lemma_skip_ws_at(s, pos);
        assert(wf_node(c0));
        assert(c0.name.len() > 0);
        assert((seq!['<'] + c0.name)[1] == c0.name[0]);
        assert(w0[1] == c0.name[0]);
        assert(wc[1] == c0.name[0]);
        assert(s[pos + 1] == c0.name[0]);
        assert(is_name_char(c0.name[0]));
        assert(!is_name_char('/'));
        assert(s[pos + 1] != '/');
        assert forall|i: int| 0 <= i < w0.len() implies s.subrange(pos, pos + w0.len())[i]
            == w0[i] by {
            assert(s.subrange(pos, pos + w0.len())[i] == s[pos + i]);
            assert(wc[i] == w0[i]);
        }
        assert(s.subrange(pos, pos + w0.len()) =~= w0);
        lemma_read_write_node(s, pos, c0, (fuel - 1) as nat);
        let q = pos + w0.len();
        let wr = write_children(rest);
        assert forall|i: int| 0 <= i < wr.len() implies s.subrange(q, q + wr.len())[i] == wr[i] by {
            assert(s.subrange(q, q + wr.len())[i] == s[q + i]);
            assert(wc[w0.len() + i] == wr[i]);
        }
        assert(s.subrange(q, q + wr.len()) =~= wr);
        assert(q + wr.len() == pos + wc.len());
        lemma_read_children_region(s, q, rest, acc.push(c0), (fuel - 1) as nat);
        assert(acc.push(c0) + rest =~= acc + cs);
    }
}

/// Reading a whole document that is exactly one well-formed element's
/// markup yields that element: the markup writer inverts through the
/// reader.
pub proof fn lemma_read_write_document(n: NodeView)
    requires
        wf_node(n),
    ensures
        read_document(write_node(n)) == Some(n),
{
    let s = write_node(n);
    lemma_write_len_covers_fuel(n);
    assert(s.subrange(0, s.len() as int) =~= s);
    lemma_read_write_node(s, 0, n, s.len() as nat);
    lemma_skip_ws_at(s, s.len() as int);
}

} // verus!
