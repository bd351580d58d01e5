//! The JSON parser: tokens to a concrete syntax tree.
//!
//! The tree keeps every token, trivia included, and never fails: an
//! unexpected or unlexable stretch of input becomes an `Error` node at the
//! offending span, for the shape walker to report.

use vstd::prelude::*;
use vstd::string::StringSliceAdditionalSpecFns;

use crate::lexer::{lex, lex_s, lexemes_ok, str_chars, Lexeme, Token};

verus! {

/// A grammar production of the JSON syntax tree.
#[derive(Debug, Clone, Copy, PartialEq, Eq, Structural)]
pub enum Rule {
    /// The root: one value with surrounding trivia.
    File,
    /// A `null`, string or number literal.
    Literal,
    /// A `true` or `false` literal.
    Boolean,
    /// An array.
    Array,
    /// An object.
    Object,
    /// One `key: value` member of an object.
    Member,
    /// An unparsable stretch of input.
    Error,
}

/// A node of the concrete syntax tree: a token leaf or a rule with children.
/// Spans are half-open, in bytes and in characters.
#[derive(Debug)]
pub enum Node {
    /// A token leaf.
    Token {
        /// The token kind.
        kind: Token,
        /// Byte span into the source.
        byte_span: (usize, usize),
        /// Character span into the source.
        char_span: (usize, usize),
    },
    /// A rule with its children, trivia included.
    Rule {
        /// The production.
        rule: Rule,
        /// Byte span into the source.
        byte_span: (usize, usize),
        /// Character span into the source.
        char_span: (usize, usize),
        /// The children, in source order.
        children: Vec<Node>,
    },
}

/// A parsed concrete syntax tree.
#[derive(Debug)]
pub struct Cst {
    /// The root node; always a `File` rule for a parsed source.
    pub root: Node,
}

/// Character spans in a node lie within the source, and a string token is at
/// least its two quotes wide.
pub open spec fn node_ok(n: Node, n_chars: nat) -> bool
    decreases n,
{
    match n {
        Node::Token { kind, char_span, .. } => char_span.0 <= char_span.1 && char_span.1 <= n_chars
            && (kind is String ==> char_span.0 + 2 <= char_span.1),
        Node::Rule { char_span, children, .. } => char_span.0 <= char_span.1 && char_span.1
            <= n_chars && {
            proof {
                let c = n->Rule_children;
                assert(decreases_to!(n => c));
                assert(decreases_to!(c => c@));
            }
            nodes_ok(children@, n_chars)
        },
    }
}

/// `node_ok`, over a list of nodes.
pub open spec fn nodes_ok(s: Seq<Node>, n_chars: nat) -> bool
    decreases s,
{
    if s.len() == 0 {
        true
    } else {
        proof {
            assert(decreases_to!(s => s[0]));
        }
        node_ok(s[0], n_chars) && nodes_ok(s.drop_first(), n_chars)
    }
}

/// `nodes_ok` holds exactly when each node is ok.
pub broadcast proof fn nodes_ok_props(s: Seq<Node>, n_chars: nat)
    ensures
        #[trigger] nodes_ok(s, n_chars) <==> (forall|i: int|
            0 <= i < s.len() ==> node_ok(s[i], n_chars)),
    decreases s.len(),
{
    if s.len() > 0 {
        nodes_ok_props(s.drop_first(), n_chars);
        assert forall|i: int| 1 <= i < s.len() implies s[i] == s.drop_first()[i - 1] by {}
        assert(nodes_ok(s, n_chars) <==> (forall|i: int|
            0 <= i < s.len() ==> node_ok(s[i], n_chars))) by {
            if forall|i: int|
                0 <= i < s.drop_first().len() ==> node_ok(s.drop_first()[i], n_chars) {
                assert forall|i: int| 0 <= i < s.len() && i >= 1 implies node_ok(
                    s[i],
                    n_chars,
                ) by {
                    assert(node_ok(s.drop_first()[i - 1], n_chars));
                }
            }
        }
    }
}

/// The parser: source text to a concrete syntax tree.
pub struct Parser;

/// State of one parsing pass over the lexemes.
struct Walk<'a> {
    lexemes: &'a Vec<Lexeme>,
    n_chars: usize,
}

impl Parser {
    /// Parses source text into a concrete syntax tree. Parsing never fails:
    /// problems appear as `Error` nodes at their spans.
    pub fn parse(source: &str) -> (r: Cst)
        requires
            source@.len() * 4 < usize::MAX,
        ensures
            node_ok(r.root, source@.len()),
            r.root matches Node::Rule { rule: Rule::File, char_span, .. } && char_span == (
                0usize,
                source@.len() as usize,
            ),
            node_model(r.root) == parse_s(
                lex_s(source@, 0, 0, 0),
                source@.len() as int,
                source.spec_bytes().len() as int,
            ),
    {
        let chars = str_chars(source);
        let n_chars = chars.len();
        let lexemes = lex(&chars);
        let ghost ls = lexemes@;
        let n_bytes = source.len();
        let walk = Walk { lexemes: &lexemes, n_chars };
        let mut children: Vec<Node> = Vec::new();
        let ghost gn = n_chars as nat;
        proof {
            assert(nodes_model(Seq::<Node>::empty()) =~= Seq::<NodeModel>::empty());
        }
        let mut pos: usize = walk.skip_trivia(0, &mut children);
        let ghost acc0 = lex_nodes(ls, 0, pos as int);
        proof {
            nodes_ok_props(children@, gn);
            assert(nodes_model(children@) =~= acc0);
        }
        if pos < lexemes.len() {
            let (node, new_pos, _erred) = walk.parse_value(pos);
            let ghost p0 = pos as int;
            let ghost p1 = new_pos as int;
            proof { nodes_ok_props(children@, gn); }
            let ghost before = children@;
            children.push(node);
            let ghost acc1 = nodes_model(children@);
            proof {
                nodes_ok_props(children@, gn);
                lemma_nodes_model_push(before, children@.last());
                assert(acc1 == acc0.push(parse_value_s(ls, p0).0));
            }
            pos = new_pos;
            let mut tail: Vec<Node> = Vec::new();
            pos = walk.skip_trivia(pos, &mut tail);
            let ghost p2 = pos as int;
            proof {
                nodes_ok_props(tail@, gn);
                nodes_model_props(tail@);
                lemma_lex_nodes(ls, p1, p2);
                assert(nodes_model(tail@) =~= lex_nodes(ls, p1, p2));
                assert(tail@.len() == p2 - p1);
            }
            let mut k: usize = 0;
            #[verifier::loop_isolation(false)]
            while k < tail.len()
                invariant
                    k <= tail@.len(),
                    nodes_ok(children@, gn),
                    forall|q: int| 0 <= q < tail@.len() ==> node_ok(#[trigger] tail@[q], gn),
                    nodes_model(children@) == acc1 + lex_nodes(ls, p1, p1 + k),
                decreases tail.len() - k,
            {
                proof {
                    nodes_model_props(tail@);
                    lemma_lex_nodes(ls, p1, p2);
                    assert(nodes_model(tail@)[k as int] == node_model(tail@[k as int]));
                    assert(lex_nodes(ls, p1, p2)[k as int] == lex_node(ls[p1 + k]));
                    assert(node_model(tail@[k as int]) == lex_node(ls[p1 + k]));
                }
                let t = copy_node_token(&tail, k, Ghost(gn));
                proof { nodes_ok_props(children@, gn); }
                let ghost before_t = children@;
                children.push(t);
                proof {
                    nodes_ok_props(children@, gn);
                    lemma_nodes_model_push(before_t, children@.last());
                    lemma_lex_nodes_snoc(ls, p1, p1 + k);
                    assert(nodes_model(children@) =~= acc1 + lex_nodes(ls, p1, p1 + k + 1));
                }
                k += 1;
            }
            let ghost acc2 = acc1 + lex_nodes(ls, p1, p2);
            proof {
                assert(nodes_model(children@) == acc2);
            }
            if pos < lexemes.len() {
                if matches!(lexemes[pos].kind, Token::Error) {
                    proof {
                        assert(nodes_model(children@) =~= acc2 + lex_nodes(ls, p2, p2 as int));
                    }
                    #[verifier::loop_isolation(false)]
                    while pos < lexemes.len()
                        invariant
                            p2 <= pos as int <= lexemes@.len(),
                            nodes_ok(children@, gn),
                            lexemes_ok(lexemes@, gn),
                            nodes_model(children@) == acc2 + lex_nodes(ls, p2, pos as int),
                        decreases lexemes.len() - pos,
                    {
                        let l = lexemes[pos];
                        proof { nodes_ok_props(children@, gn); }
                        let ghost before_e = children@;
                        children.push(Node::Token {
                            kind: l.kind,
                            byte_span: (l.bs, l.be),
                            char_span: (l.cs, l.ce),
                        });
                        proof {
                            nodes_ok_props(children@, gn);
                            lemma_nodes_model_push(before_e, children@.last());
                            lemma_lex_nodes_snoc(ls, p2, pos as int);
                            assert(node_model(children@.last()) == lex_node(ls[pos as int]));
                            assert(nodes_model(children@) == (acc2 + lex_nodes(
                                ls,
                                p2,
                                pos as int,
                            )).push(lex_node(ls[pos as int])));
                            assert(nodes_model(children@) =~= acc2 + lex_nodes(
                                ls,
                                p2,
                                pos as int + 1,
                            ));
                        }
                        pos += 1;
                    }
                } else {
                    let first = lexemes[pos];
                    let last = lexemes[lexemes.len() - 1];
                    let err = Node::Rule {
                        rule: Rule::Error,
                        byte_span: (first.bs, last.be),
                        char_span: (
                            if first.cs <= last.ce {
                                first.cs
                            } else {
                                last.ce
                            },
                            last.ce,
                        ),
                        children: Vec::new(),
                    };
                    proof {
                        assert(nodes_ok(Seq::<Node>::empty(), gn));
                    }
                    proof { nodes_ok_props(children@, gn); }
                    let ghost before_r = children@;
                    children.push(err);
                    proof {
                        nodes_ok_props(children@, gn);
                        lemma_nodes_model_push(before_r, children@.last());
                        assert(node_model(children@.last()) =~~= error_to_end_s(ls, p2));
                    }
                }
            }
        }
        let root = Node::Rule {
            rule: Rule::File,
            byte_span: (0, n_bytes),
            char_span: (0, n_chars),
            children,
        };
        proof {
            assert(node_model(root) =~~= parse_s(ls, n_chars as int, n_bytes as int));
        }
        Cst { root }
    }
}

/// Copies the token node at an index; trivia lists hold only token leaves.
fn copy_node_token(nodes: &Vec<Node>, k: usize, Ghost(m): Ghost<nat>) -> (r: Node)
    requires
        k < nodes@.len(),
        node_ok(nodes@[k as int], m),
    ensures
        node_ok(r, m),
        node_model(nodes@[k as int]) is Token ==> node_model(r) == node_model(nodes@[k as int]),
{
    match &nodes[k] {
        Node::Token { kind, byte_span, char_span } => Node::Token {
            kind: *kind,
            byte_span: *byte_span,
            char_span: *char_span,
        },
        Node::Rule { rule, byte_span, char_span, .. } => {
            let r = Node::Rule {
                rule: *rule,
                byte_span: *byte_span,
                char_span: *char_span,
                children: Vec::new(),
            };
            proof {
                assert(nodes_ok(Seq::<Node>::empty(), m));
            }
            r
        },
    }
}

impl<'a> Walk<'a> {
    /// The lexemes all lie within the source.
    spec fn wf(&self) -> bool {
        lexemes_ok(self.lexemes@, self.n_chars as nat)
    }

    /// Pushes trivia tokens from the position onward, returning the first
    /// non-trivia position.
    fn skip_trivia(&self, pos: usize, out: &mut Vec<Node>) -> (r: usize)
        requires
            self.wf(),
            pos <= self.lexemes@.len(),
            nodes_ok(old(out)@, self.n_chars as nat),
        ensures
            pos <= r <= self.lexemes@.len(),
            nodes_ok(final(out)@, self.n_chars as nat),
            r < self.lexemes@.len() ==> !((self.lexemes@[r as int].kind) is Whitespace) && !((
            self.lexemes@[r as int].kind) is Newline),
            r as int == skip_trivia_s(self.lexemes@, pos as int),
            nodes_model(final(out)@) == nodes_model(old(out)@) + lex_nodes(
                self.lexemes@,
                pos as int,
                r as int,
            ),
    {
        let ghost ls = self.lexemes@;
        let mut p = pos;
        proof {
            assert(nodes_model(out@) =~= nodes_model(out@) + lex_nodes(ls, pos as int, pos as int));
        }
        #[verifier::loop_isolation(false)]
        while p < self.lexemes.len() && (matches!(self.lexemes[p].kind, Token::Whitespace)
            || matches!(self.lexemes[p].kind, Token::Newline))
            invariant
                pos <= p <= self.lexemes@.len(),
                nodes_ok(out@, self.n_chars as nat),
                skip_trivia_s(ls, pos as int) == skip_trivia_s(ls, p as int),
                nodes_model(out@) == nodes_model(old(out)@) + lex_nodes(ls, pos as int, p as int),
            decreases self.lexemes@.len() - p,
        {
            let l = self.lexemes[p];
            proof { nodes_ok_props(out@, self.n_chars as nat); }
            let ghost before = out@;
            out.push(Node::Token {
                kind: l.kind,
                byte_span: (l.bs, l.be),
                char_span: (l.cs, l.ce),
            });
            proof {
                nodes_ok_props(out@, self.n_chars as nat);
                lemma_nodes_model_push(before, out@.last());
                lemma_lex_nodes_snoc(ls, pos as int, p as int);
                assert(nodes_model(out@) =~= nodes_model(old(out)@) + lex_nodes(
                    ls,
                    pos as int,
                    p as int + 1,
                ));
            }
            p += 1;
        }
        proof {
            assert(skip_trivia_s(ls, p as int) == p as int);
        }
        p
    }

    /// Pushes every remaining lexeme as a flat token child.
    fn push_rest(&self, pos: usize, out: &mut Vec<Node>) -> (r: usize)
        requires
            self.wf(),
            pos <= self.lexemes@.len(),
            nodes_ok(old(out)@, self.n_chars as nat),
        ensures
            r == self.lexemes@.len(),
            pos <= r,
            nodes_ok(final(out)@, self.n_chars as nat),
            nodes_model(final(out)@) == nodes_model(old(out)@) + lex_nodes(
                self.lexemes@,
                pos as int,
                self.lexemes@.len() as int,
            ),
    {
        let ghost ls = self.lexemes@;
        let mut p = pos;
        proof {
            assert(nodes_model(out@) =~= nodes_model(out@) + lex_nodes(ls, pos as int, pos as int));
        }
        #[verifier::loop_isolation(false)]
        while p < self.lexemes.len()
            invariant
                pos <= p <= self.lexemes@.len(),
                nodes_ok(out@, self.n_chars as nat),
                nodes_model(out@) == nodes_model(old(out)@) + lex_nodes(ls, pos as int, p as int),
            decreases self.lexemes@.len() - p,
        {
            let l = self.lexemes[p];
            proof { nodes_ok_props(out@, self.n_chars as nat); }
            let ghost before = out@;
            out.push(Node::Token {
                kind: l.kind,
                byte_span: (l.bs, l.be),
                char_span: (l.cs, l.ce),
            });
            proof {
                nodes_ok_props(out@, self.n_chars as nat);
                lemma_nodes_model_push(before, out@.last());
                lemma_lex_nodes_snoc(ls, pos as int, p as int);
                assert(nodes_model(out@) =~= nodes_model(old(out)@) + lex_nodes(
                    ls,
                    pos as int,
                    p as int + 1,
                ));
            }
            p += 1;
        }
        p
    }

    /// An `Error` rule spanning from the lexeme at the position to the end of
    /// the input, consuming everything.
    fn error_to_end(&self, pos: usize) -> (r: (Node, usize))
        requires
            self.wf(),
            pos < self.lexemes@.len(),
        ensures
            node_ok(r.0, self.n_chars as nat),
            pos < r.1 <= self.lexemes@.len(),
            r.1 == self.lexemes@.len(),
            node_model(r.0) == error_to_end_s(self.lexemes@, pos as int),
    {
        let first = self.lexemes[pos];
        let last = self.lexemes[self.lexemes.len() - 1];
        let cs = if first.cs <= last.ce {
            first.cs
        } else {
            last.ce
        };
        let node = Node::Rule {
            rule: Rule::Error,
            byte_span: (first.bs, last.be),
            char_span: (cs, last.ce),
            children: Vec::new(),
        };
        proof {
            assert(nodes_ok(Seq::<Node>::empty(), self.n_chars as nat));
            assert(node_model(node) =~~= error_to_end_s(self.lexemes@, pos as int));
        }
        (node, self.lexemes.len())
    }

    /// Parses one value starting at a non-trivia position; recovery turns
    /// problems into `Error` nodes and consumes to the end of the input.
    #[verifier::loop_isolation(false)]
    #[verifier::rlimit(100)]
    fn parse_value(&self, pos: usize) -> (r: (Node, usize, bool))
        requires
            self.wf(),
            pos < self.lexemes@.len(),
        ensures
            node_ok(r.0, self.n_chars as nat),
            pos < r.1 <= self.lexemes@.len(),
            (node_model(r.0), r.1 as int, r.2) == parse_value_s(self.lexemes@, pos as int),
        decreases self.lexemes@.len() - pos,
    {
        let ghost gn = self.n_chars as nat;
        let ghost ls = self.lexemes@;
        let n = self.lexemes.len();
        let l = self.lexemes[pos];
        match l.kind {
            Token::True | Token::False => {
                let child = Node::Token {
                    kind: l.kind,
                    byte_span: (l.bs, l.be),
                    char_span: (l.cs, l.ce),
                };
                let mut children: Vec<Node> = Vec::new();
                proof { nodes_ok_props(children@, gn); }
                children.push(child);
                proof {
                    nodes_ok_props(children@, gn);
                    nodes_model_props(children@);
                    assert(nodes_model(children@) =~= seq![lex_node(ls[pos as int])]);
                }
                let node = Node::Rule {
                    rule: Rule::Boolean,
                    byte_span: (l.bs, l.be),
                    char_span: (l.cs, l.ce),
                    children,
                };
                proof {
                    assert(node_model(node) =~~= parse_value_s(ls, pos as int).0);
                }
                (node, pos + 1, false)
            },
            Token::Null | Token::String | Token::Number => {
                let child = Node::Token {
                    kind: l.kind,
                    byte_span: (l.bs, l.be),
                    char_span: (l.cs, l.ce),
                };
                let mut children: Vec<Node> = Vec::new();
                proof { nodes_ok_props(children@, gn); }
                children.push(child);
                proof {
                    nodes_ok_props(children@, gn);
                    nodes_model_props(children@);
                    assert(nodes_model(children@) =~= seq![lex_node(ls[pos as int])]);
                }
                let node = Node::Rule {
                    rule: Rule::Literal,
                    byte_span: (l.bs, l.be),
                    char_span: (l.cs, l.ce),
                    children,
                };
                proof {
                    assert(node_model(node) =~~= parse_value_s(ls, pos as int).0);
                }
                (node, pos + 1, false)
            },
            Token::Error => {
                (
                    Node::Token {
                        kind: Token::Error,
                        byte_span: (l.bs, l.be),
                        char_span: (l.cs, l.ce),
                    },
                    pos + 1,
                    true,
                )
            },
            Token::LBrak => self.parse_array(pos),
            Token::LBrace => self.parse_object(pos),
            _ => {
                let (node, np) = self.error_to_end(pos);
                (node, np, true)
            },
        }
    }

    /// Parses an array whose `[` is at the position.
    #[verifier::loop_isolation(false)]
    #[verifier::rlimit(100)]
    fn parse_array(&self, pos: usize) -> (r: (Node, usize, bool))
        requires
            self.wf(),
            pos < self.lexemes@.len(),
            self.lexemes@[pos as int].kind is LBrak,
        ensures
            node_ok(r.0, self.n_chars as nat),
            pos < r.1 <= self.lexemes@.len(),
            (node_model(r.0), r.1 as int, r.2) == parse_array_s(self.lexemes@, pos as int),
        decreases self.lexemes@.len() - pos, 1nat,
    {
        let ghost gn = self.n_chars as nat;
        let ghost ls = self.lexemes@;
        let n = self.lexemes.len();
        let open = self.lexemes[pos];
        let mut children: Vec<Node> = Vec::new();
        proof { nodes_ok_props(children@, gn); }
        children.push(Node::Token {
            kind: Token::LBrak,
            byte_span: (open.bs, open.be),
            char_span: (open.cs, open.ce),
        });
        proof {
            nodes_ok_props(children@, gn);
            nodes_model_props(children@);
            assert(nodes_model(children@) =~= seq![lex_node(open)]);
        }
        let mut p = pos + 1;
        let mut end_c = open.ce;
        let mut end_b = open.be;
        let mut erred: bool = false;
        loop
            invariant
                self.wf(),
                pos < p <= self.lexemes@.len(),
                nodes_ok(children@, gn),
                end_c <= self.n_chars,
                open.cs <= end_c,
                parse_array_s(ls, pos as int) == arr_loop_s(
                    ls,
                    p as int,
                    nodes_model(children@),
                    end_c,
                    end_b,
                    erred,
                    open,
                ),
            decreases self.lexemes@.len() - p,
        {
            let ghost hp = p as int;
            let ghost hacc = nodes_model(children@);
            let ghost herr = erred;
            let ghost hec = end_c;
            let ghost heb = end_b;
            p = self.skip_trivia(p, &mut children);
            let ghost acc1 = nodes_model(children@);
            proof {
                assert(acc1 == hacc + lex_nodes(ls, hp, p as int));
            }
            if p >= self.lexemes.len() {
                if !erred {
                    let err = Node::Rule {
                        rule: Rule::Error,
                        byte_span: (open.bs, end_b),
                        char_span: (open.cs, end_c),
                        children: Vec::new(),
                    };
                    proof {
                        assert(nodes_ok(Seq::<Node>::empty(), gn));
                    }
                    proof { nodes_ok_props(children@, gn); }
                    let ghost before = children@;
                    children.push(err);
                    proof {
                        nodes_ok_props(children@, gn);
                        lemma_nodes_model_push(before, children@.last());
                        assert(nodes_model(Seq::<Node>::empty()) =~= Seq::<NodeModel>::empty());
                    }
                }
                let node = Node::Rule {
                    rule: Rule::Array,
                    byte_span: (open.bs, end_b),
                    char_span: (open.cs, end_c),
                    children,
                };
                proof {
                    assert(node_model(node) =~~= arr_loop_s(ls, hp, hacc, end_c, end_b, herr, open).0);
                }
                return (node, p, true);
            }
            let l = self.lexemes[p];
            match l.kind {
                Token::RBrak => {
                    proof { nodes_ok_props(children@, gn); }
                    let ghost before = children@;
                    children.push(Node::Token {
                        kind: Token::RBrak,
                        byte_span: (l.bs, l.be),
                        char_span: (l.cs, l.ce),
                    });
                    proof {
                        nodes_ok_props(children@, gn);
                        lemma_nodes_model_push(before, children@.last());
                    }
                    let node = Node::Rule {
                        rule: Rule::Array,
                        byte_span: (open.bs, l.be),
                        char_span: (open.cs, if l.ce >= open.cs {
                            l.ce
                        } else {
                            open.cs
                        }),
                        children,
                    };
                    proof {
                        assert(node_model(node) =~~= arr_loop_s(
                            ls,
                            hp,
                            hacc,
                            end_c,
                            end_b,
                            herr,
                            open,
                        ).0);
                    }
                    return (node, p + 1, erred);
                },
                Token::Comma => {
                    proof { nodes_ok_props(children@, gn); }
                    let ghost before = children@;
                    children.push(Node::Token {
                        kind: Token::Comma,
                        byte_span: (l.bs, l.be),
                        char_span: (l.cs, l.ce),
                    });
                    proof {
                        nodes_ok_props(children@, gn);
                        lemma_nodes_model_push(before, children@.last());
                    }
                    if l.ce >= end_c {
                        end_c = l.ce;
                        end_b = l.be;
                    }
                    p += 1;
                    proof {
                        assert(arr_loop_s(ls, hp, hacc, hec, heb, herr, open) == arr_loop_s(
                            ls,
                            p as int,
                            nodes_model(children@),
                            end_c,
                            end_b,
                            erred,
                            open,
                        ));
                    }
                },
                Token::Error => {
                    proof { nodes_ok_props(children@, gn); }
                    let ghost before = children@;
                    children.push(Node::Token {
                        kind: Token::Error,
                        byte_span: (l.bs, l.be),
                        char_span: (l.cs, l.ce),
                    });
                    proof {
                        nodes_ok_props(children@, gn);
                        lemma_nodes_model_push(before, children@.last());
                    }
                    let np = self.push_rest(p + 1, &mut children);
                    let node = Node::Rule {
                        rule: Rule::Array,
                        byte_span: (open.bs, l.be),
                        char_span: (open.cs, if l.ce >= open.cs {
                            l.ce
                        } else {
                            open.cs
                        }),
                        children,
                    };
                    proof {
                        assert(nodes_model(node->Rule_children@) == acc1.push(lex_node(l))
                            + lex_nodes(ls, p as int + 1, ls.len() as int));
                        assert(node_model(node) =~~= arr_loop_s(
                            ls,
                            hp,
                            hacc,
                            end_c,
                            end_b,
                            herr,
                            open,
                        ).0);
                    }
                    return (node, np, true);
                },
                Token::Colon | Token::RBrace | Token::EOF => {
                    let (err, np) = self.error_to_end(p);
                    proof { nodes_ok_props(children@, gn); }
                    let ghost before = children@;
                    children.push(err);
                    proof {
                        nodes_ok_props(children@, gn);
                        lemma_nodes_model_push(before, children@.last());
                    }
                    let node = Node::Rule {
                        rule: Rule::Array,
                        byte_span: (open.bs, end_b),
                        char_span: (open.cs, end_c),
                        children,
                    };
                    proof {
                        assert(node_model(node) =~~= arr_loop_s(
                            ls,
                            hp,
                            hacc,
                            end_c,
                            end_b,
                            herr,
                            open,
                        ).0);
                    }
                    return (node, np, true);
                },
                _ => {
                    let (child, np, child_erred) = self.parse_value(p);
                    proof { nodes_ok_props(children@, gn); }
                    let ghost before = children@;
                    children.push(child);
                    proof {
                        nodes_ok_props(children@, gn);
                        lemma_nodes_model_push(before, children@.last());
                    }
                    if child_erred {
                        erred = true;
                    }
                    proof {
                        assert(arr_loop_s(ls, hp, hacc, hec, heb, herr, open) == arr_loop_s(
                            ls,
                            np as int,
                            nodes_model(children@),
                            end_c,
                            end_b,
                            erred,
                            open,
                        ));
                    }
                    p = np;
                },
            }
        }
    }

    /// Parses an object whose `{` is at the position.
    #[verifier::loop_isolation(false)]
    #[verifier::rlimit(100)]
    fn parse_object(&self, pos: usize) -> (r: (Node, usize, bool))
        requires
            self.wf(),
            pos < self.lexemes@.len(),
            self.lexemes@[pos as int].kind is LBrace,
        ensures
            node_ok(r.0, self.n_chars as nat),
            pos < r.1 <= self.lexemes@.len(),
            (node_model(r.0), r.1 as int, r.2) == parse_object_s(self.lexemes@, pos as int),
        decreases self.lexemes@.len() - pos, 1nat,
    {
        let ghost gn = self.n_chars as nat;
        let ghost ls = self.lexemes@;
        let n = self.lexemes.len();
        let open = self.lexemes[pos];
        let mut children: Vec<Node> = Vec::new();
        proof { nodes_ok_props(children@, gn); }
        children.push(Node::Token {
            kind: Token::LBrace,
            byte_span: (open.bs, open.be),
            char_span: (open.cs, open.ce),
        });
        proof {
            nodes_ok_props(children@, gn);
            nodes_model_props(children@);
            assert(nodes_model(children@) =~= seq![lex_node(open)]);
        }
        let mut p = pos + 1;
        let mut end_c = open.ce;
        let mut end_b = open.be;
        let mut erred: bool = false;
        loop
            invariant
                self.wf(),
                pos < p <= self.lexemes@.len(),
                nodes_ok(children@, gn),
                end_c <= self.n_chars,
                open.cs <= end_c,
                parse_object_s(ls, pos as int) == obj_loop_s(
                    ls,
                    p as int,
                    nodes_model(children@),
                    end_c,
                    end_b,
                    erred,
                    open,
                ),
            decreases self.lexemes@.len() - p,
        {
            let ghost hp = p as int;
            let ghost hacc = nodes_model(children@);
            let ghost herr = erred;
            let ghost hec = end_c;
            let ghost heb = end_b;
            p = self.skip_trivia(p, &mut children);
            let ghost acc1 = nodes_model(children@);
            proof {
                assert(acc1 == hacc + lex_nodes(ls, hp, p as int));
            }
            if p >= self.lexemes.len() {
                if !erred {
                    let err = Node::Rule {
                        rule: Rule::Error,
                        byte_span: (open.bs, end_b),
                        char_span: (open.cs, end_c),
                        children: Vec::new(),
                    };
                    proof {
                        assert(nodes_ok(Seq::<Node>::empty(), gn));
                    }
                    proof { nodes_ok_props(children@, gn); }
                    let ghost before = children@;
                    children.push(err);
                    proof {
                        nodes_ok_props(children@, gn);
                        lemma_nodes_model_push(before, children@.last());
                        assert(nodes_model(Seq::<Node>::empty()) =~= Seq::<NodeModel>::empty());
                    }
                }
                let node = Node::Rule {
                    rule: Rule::Object,
                    byte_span: (open.bs, end_b),
                    char_span: (open.cs, end_c),
                    children,
                };
                proof {
                    assert(node_model(node) =~~= obj_loop_s(ls, hp, hacc, end_c, end_b, herr, open).0);
                }
                return (node, p, true);
            }
            let l = self.lexemes[p];
            match l.kind {
                Token::RBrace => {
                    proof { nodes_ok_props(children@, gn); }
                    let ghost before = children@;
                    children.push(Node::Token {
                        kind: Token::RBrace,
                        byte_span: (l.bs, l.be),
                        char_span: (l.cs, l.ce),
                    });
                    proof {
                        nodes_ok_props(children@, gn);
                        lemma_nodes_model_push(before, children@.last());
                    }
                    let node = Node::Rule {
                        rule: Rule::Object,
                        byte_span: (open.bs, l.be),
                        char_span: (open.cs, if l.ce >= open.cs {
                            l.ce
                        } else {
                            open.cs
                        }),
                        children,
                    };
                    proof {
                        assert(node_model(node) =~~= obj_loop_s(
                            ls,
                            hp,
                            hacc,
                            end_c,
                            end_b,
                            herr,
                            open,
                        ).0);
                    }
                    return (node, p + 1, erred);
                },
                Token::Comma => {
                    proof { nodes_ok_props(children@, gn); }
                    let ghost before = children@;
                    children.push(Node::Token {
                        kind: Token::Comma,
                        byte_span: (l.bs, l.be),
                        char_span: (l.cs, l.ce),
                    });
                    proof {
                        nodes_ok_props(children@, gn);
                        lemma_nodes_model_push(before, children@.last());
                    }
                    if l.ce >= end_c {
                        end_c = l.ce;
                        end_b = l.be;
                    }
                    p += 1;
                    proof {
                        assert(obj_loop_s(ls, hp, hacc, hec, heb, herr, open) == obj_loop_s(
                            ls,
                            p as int,
                            nodes_model(children@),
                            end_c,
                            end_b,
                            erred,
                            open,
                        ));
                    }
                },
                Token::Error => {
                    proof { nodes_ok_props(children@, gn); }
                    let ghost before = children@;
                    children.push(Node::Token {
                        kind: Token::Error,
                        byte_span: (l.bs, l.be),
                        char_span: (l.cs, l.ce),
                    });
                    proof {
                        nodes_ok_props(children@, gn);
                        lemma_nodes_model_push(before, children@.last());
                    }
                    let np = self.push_rest(p + 1, &mut children);
                    let node = Node::Rule {
                        rule: Rule::Object,
                        byte_span: (open.bs, l.be),
                        char_span: (open.cs, if l.ce >= open.cs {
                            l.ce
                        } else {
                            open.cs
                        }),
                        children,
                    };
                    proof {
                        assert(nodes_model(node->Rule_children@) == acc1.push(lex_node(l))
                            + lex_nodes(ls, p as int + 1, ls.len() as int));
                        assert(node_model(node) =~~= obj_loop_s(
                            ls,
                            hp,
                            hacc,
                            end_c,
                            end_b,
                            herr,
                            open,
                        ).0);
                    }
                    return (node, np, true);
                },
                Token::String => {
                    let (member, np, member_erred) = self.parse_member(p);
                    proof { nodes_ok_props(children@, gn); }
                    let ghost before = children@;
                    children.push(member);
                    proof {
                        nodes_ok_props(children@, gn);
                        lemma_nodes_model_push(before, children@.last());
                    }
                    if member_erred {
                        erred = true;
                    }
                    proof {
                        assert(obj_loop_s(ls, hp, hacc, hec, heb, herr, open) == obj_loop_s(
                            ls,
                            np as int,
                            nodes_model(children@),
                            end_c,
                            end_b,
                            erred,
                            open,
                        ));
                    }
                    p = np;
                },
                _ => {
                    let (err, np) = self.error_to_end(p);
                    proof { nodes_ok_props(children@, gn); }
                    let ghost before = children@;
                    children.push(err);
                    proof {
                        nodes_ok_props(children@, gn);
                        lemma_nodes_model_push(before, children@.last());
                    }
                    let node = Node::Rule {
                        rule: Rule::Object,
                        byte_span: (open.bs, end_b),
                        char_span: (open.cs, end_c),
                        children,
                    };
                    proof {
                        assert(node_model(node) =~~= obj_loop_s(
                            ls,
                            hp,
                            hacc,
                            end_c,
                            end_b,
                            herr,
                            open,
                        ).0);
                    }
                    return (node, np, true);
                },
            }
        }
    }

    /// Parses one object member whose key string is at the position.
    #[verifier::loop_isolation(false)]
    #[verifier::rlimit(100)]
    fn parse_member(&self, pos: usize) -> (r: (Node, usize, bool))
        requires
            self.wf(),
            pos < self.lexemes@.len(),
            self.lexemes@[pos as int].kind is String,
        ensures
            node_ok(r.0, self.n_chars as nat),
            pos < r.1 <= self.lexemes@.len(),
            (node_model(r.0), r.1 as int, r.2) == parse_member_s(self.lexemes@, pos as int),
        decreases self.lexemes@.len() - pos, 0nat,
    {
        let ghost gn = self.n_chars as nat;
        let ghost ls = self.lexemes@;
        let n = self.lexemes.len();
        let key = self.lexemes[pos];
        let mut children: Vec<Node> = Vec::new();
        proof { nodes_ok_props(children@, gn); }
        children.push(Node::Token {
            kind: Token::String,
            byte_span: (key.bs, key.be),
            char_span: (key.cs, key.ce),
        });
        proof {
            assert(key.cs + 2 <= key.ce);
            nodes_ok_props(children@, gn);
            nodes_model_props(children@);
            assert(nodes_model(children@) =~= seq![lex_node(key)]);
        }
        let mut p = self.skip_trivia(pos + 1, &mut children);
        let ghost acc1 = nodes_model(children@);
        proof {
            assert(acc1 == seq![lex_node(key)] + lex_nodes(ls, pos as int + 1, p as int));
        }
        if p >= self.lexemes.len() || !matches!(self.lexemes[p].kind, Token::Colon) {
            let (err, np) = if p < self.lexemes.len() {
                self.error_to_end(p)
            } else {
                (
                    Node::Rule {
                        rule: Rule::Error,
                        byte_span: (key.bs, key.be),
                        char_span: (key.cs, key.ce),
                        children: Vec::new(),
                    },
                    p,
                )
            };
            proof {
                assert(nodes_ok(Seq::<Node>::empty(), gn));
            }
            proof { nodes_ok_props(children@, gn); }
            let ghost before = children@;
            children.push(err);
            proof {
                nodes_ok_props(children@, gn);
                lemma_nodes_model_push(before, children@.last());
                assert(nodes_model(Seq::<Node>::empty()) =~= Seq::<NodeModel>::empty());
            }
            let node = Node::Rule {
                rule: Rule::Member,
                byte_span: (key.bs, key.be),
                char_span: (key.cs, key.ce),
                children,
            };
            proof {
                assert(node_model(node) =~~= parse_member_s(ls, pos as int).0);
            }
            return (node, np, true);
        }
        let colon = self.lexemes[p];
        proof { nodes_ok_props(children@, gn); }
        let ghost before_colon = children@;
        children.push(Node::Token {
            kind: Token::Colon,
            byte_span: (colon.bs, colon.be),
            char_span: (colon.cs, colon.ce),
        });
        proof {
            nodes_ok_props(children@, gn);
            lemma_nodes_model_push(before_colon, children@.last());
        }
        let p2 = self.skip_trivia(p + 1, &mut children);
        let ghost acc2 = nodes_model(children@);
        proof {
            assert(acc2 == acc1.push(lex_node(colon)) + lex_nodes(ls, p as int + 1, p2 as int));
        }
        if p2 >= self.lexemes.len() {
            let err = Node::Rule {
                rule: Rule::Error,
                byte_span: (key.bs, colon.be),
                char_span: (key.cs, if colon.ce >= key.cs {
                    colon.ce
                } else {
                    key.cs
                }),
                children: Vec::new(),
            };
            proof {
                assert(nodes_ok(Seq::<Node>::empty(), gn));
            }
            proof { nodes_ok_props(children@, gn); }
            let ghost before = children@;
            children.push(err);
            proof {
                nodes_ok_props(children@, gn);
                lemma_nodes_model_push(before, children@.last());
                assert(nodes_model(Seq::<Node>::empty()) =~= Seq::<NodeModel>::empty());
            }
            let node = Node::Rule {
                rule: Rule::Member,
                byte_span: (key.bs, colon.be),
                char_span: (key.cs, if colon.ce >= key.cs {
                    colon.ce
                } else {
                    key.cs
                }),
                children,
            };
            proof {
                assert(node_model(node) =~~= parse_member_s(ls, pos as int).0);
            }
            return (node, p2, true);
        }
        let lv = self.lexemes[p2];
        let (value, np, erred) = self.parse_value(p2);
        proof { nodes_ok_props(children@, gn); }
        let ghost before = children@;
        children.push(value);
        proof {
            nodes_ok_props(children@, gn);
            lemma_nodes_model_push(before, children@.last());
        }
        let node = Node::Rule {
            rule: Rule::Member,
            byte_span: (key.bs, lv.be),
            char_span: (key.cs, if lv.ce >= key.cs {
                lv.ce
            } else {
                key.cs
            }),
            children,
        };
        proof {
            assert(node_model(node) =~~= parse_member_s(ls, pos as int).0);
        }
        (node, np, erred)
    }
}

} // verus!

verus! {

/// A syntax tree node in the model: the view of a [`Node`], with children as
/// a sequence. The parse of a lexeme sequence is a function onto this type.
#[verifier::ext_equal]
pub enum NodeModel {
    /// A token leaf.
    Token {
        /// The token kind.
        kind: Token,
        /// Byte span into the source.
        byte_span: (usize, usize),
        /// Character span into the source.
        char_span: (usize, usize),
    },
    /// A rule with its children, trivia included.
    Rule {
        /// The production.
        rule: Rule,
        /// Byte span into the source.
        byte_span: (usize, usize),
        /// Character span into the source.
        char_span: (usize, usize),
        /// The children, in source order.
        children: Seq<NodeModel>,
    },
}

/// The model of a node: the same tree with sequence children.
pub open spec fn node_model(n: Node) -> NodeModel
    decreases n,
{
    match n {
        Node::Token { kind, byte_span, char_span } => NodeModel::Token {
            kind,
            byte_span,
            char_span,
        },
        Node::Rule { rule, byte_span, char_span, children } => {
            proof {
                let c = n->Rule_children;
                assert(decreases_to!(n => c));
                assert(decreases_to!(c => c@));
            }
            NodeModel::Rule { rule, byte_span, char_span, children: nodes_model(children@) }
        },
    }
}

/// `node_model`, over a list of nodes.
pub open spec fn nodes_model(s: Seq<Node>) -> Seq<NodeModel>
    decreases s,
{
    if s.len() == 0 {
        Seq::empty()
    } else {
        proof {
            assert(decreases_to!(s => s[0]));
        }
        seq![node_model(s[0])] + nodes_model(s.drop_first())
    }
}

/// The model of a node list is the element-wise model.
pub proof fn nodes_model_props(s: Seq<Node>)
    ensures
        nodes_model(s).len() == s.len(),
        forall|i: int| 0 <= i < s.len() ==> nodes_model(s)[i] == node_model(s[i]),
    decreases s.len(),
{
    if s.len() > 0 {
        nodes_model_props(s.drop_first());
        assert forall|i: int| 0 <= i < s.len() implies nodes_model(s)[i] == node_model(s[i]) by {
            if i > 0 {
                assert(s.drop_first()[i - 1] == s[i]);
                assert(nodes_model(s)[i] == nodes_model(s.drop_first())[i - 1]);
            }
        }
    }
}

/// Appending a node appends its model.
pub proof fn lemma_nodes_model_push(s: Seq<Node>, n: Node)
    ensures
        nodes_model(s.push(n)) == nodes_model(s).push(node_model(n)),
{
    nodes_model_props(s);
    nodes_model_props(s.push(n));
    assert(nodes_model(s.push(n)) =~= nodes_model(s).push(node_model(n)));
}

/// The token leaf a lexeme becomes.
pub open spec fn lex_node(l: Lexeme) -> NodeModel {
    NodeModel::Token { kind: l.kind, byte_span: (l.bs, l.be), char_span: (l.cs, l.ce) }
}

/// Whether a lexeme is trivia: whitespace or a newline.
pub open spec fn lex_trivia(l: Lexeme) -> bool {
    l.kind is Whitespace || l.kind is Newline
}

/// The first non-trivia position at or after `pos`.
pub open spec fn skip_trivia_s(ls: Seq<Lexeme>, pos: int) -> int
    decreases ls.len() - pos,
{
    if pos < ls.len() && lex_trivia(ls[pos]) {
        skip_trivia_s(ls, pos + 1)
    } else {
        pos
    }
}

/// `skip_trivia_s` stays within the lexeme list.
pub proof fn lemma_skip_trivia_s(ls: Seq<Lexeme>, pos: int)
    requires
        0 <= pos <= ls.len(),
    ensures
        pos <= skip_trivia_s(ls, pos) <= ls.len(),
    decreases ls.len() - pos,
{
    if pos < ls.len() && lex_trivia(ls[pos]) {
        lemma_skip_trivia_s(ls, pos + 1);
    }
}

/// The token leaves of the lexemes in `[i, j)`.
pub open spec fn lex_nodes(ls: Seq<Lexeme>, i: int, j: int) -> Seq<NodeModel>
    decreases j - i,
{
    if i < j {
        seq![lex_node(ls[i])] + lex_nodes(ls, i + 1, j)
    } else {
        Seq::empty()
    }
}

/// Extending the range by one appends that lexeme's leaf.
pub proof fn lemma_lex_nodes_snoc(ls: Seq<Lexeme>, i: int, j: int)
    requires
        i <= j,
    ensures
        lex_nodes(ls, i, j + 1) == lex_nodes(ls, i, j).push(lex_node(ls[j])),
    decreases j - i,
{
    if i < j {
        lemma_lex_nodes_snoc(ls, i + 1, j);
        assert(lex_nodes(ls, i, j + 1) =~= lex_nodes(ls, i, j).push(lex_node(ls[j])));
    } else {
        assert(lex_nodes(ls, j + 1, j + 1) =~= Seq::<NodeModel>::empty());
        assert(lex_nodes(ls, i, j + 1) =~= lex_nodes(ls, i, j).push(lex_node(ls[j])));
    }
}

/// The leaves of a range, element by element.
pub proof fn lemma_lex_nodes(ls: Seq<Lexeme>, i: int, j: int)
    ensures
        lex_nodes(ls, i, j).len() == (if j >= i { j - i } else { 0 }),
        forall|k: int|
            0 <= k < lex_nodes(ls, i, j).len() ==> lex_nodes(ls, i, j)[k] == lex_node(ls[i + k]),
    decreases j - i,
{
    if i < j {
        lemma_lex_nodes(ls, i + 1, j);
        assert forall|k: int| 0 <= k < lex_nodes(ls, i, j).len() implies lex_nodes(ls, i, j)[k]
            == lex_node(ls[i + k]) by {
            if k > 0 {
                assert(lex_nodes(ls, i, j)[k] == lex_nodes(ls, i + 1, j)[k - 1]);
            }
        }
    }
}

/// An `Error` rule spanning from the lexeme at `pos` to the end of the input.
pub open spec fn error_to_end_s(ls: Seq<Lexeme>, pos: int) -> NodeModel {
    let first = ls[pos];
    let last = ls[ls.len() - 1];
    let cs: usize = if first.cs <= last.ce {
        first.cs
    } else {
        last.ce
    };
    NodeModel::Rule {
        rule: Rule::Error,
        byte_span: (first.bs, last.be),
        char_span: (cs, last.ce),
        children: Seq::empty(),
    }
}

} // verus!

verus! {

/// The parse of one value at a non-trivia position: the node, the position
/// after it, and whether an error token was consumed. Mirrors
/// `Walk::parse_value`; the out-of-range arm never arises from the parser and
/// only keeps the recursion total.
pub open spec fn parse_value_s(ls: Seq<Lexeme>, pos: int) -> (NodeModel, int, bool)
    decreases ls.len() - pos, 2nat,
{
    if pos < 0 || ls.len() <= pos {
        (lex_node(Lexeme { kind: Token::EOF, cs: 0, ce: 0, bs: 0, be: 0 }), pos + 1, true)
    } else {
        let l = ls[pos];
        match l.kind {
            Token::True | Token::False => (
                NodeModel::Rule {
                    rule: Rule::Boolean,
                    byte_span: (l.bs, l.be),
                    char_span: (l.cs, l.ce),
                    children: seq![lex_node(l)],
                },
                pos + 1,
                false,
            ),
            Token::Null | Token::String | Token::Number => (
                NodeModel::Rule {
                    rule: Rule::Literal,
                    byte_span: (l.bs, l.be),
                    char_span: (l.cs, l.ce),
                    children: seq![lex_node(l)],
                },
                pos + 1,
                false,
            ),
            Token::Error => (lex_node(l), pos + 1, true),
            Token::LBrak => parse_array_s(ls, pos),
            Token::LBrace => parse_object_s(ls, pos),
            _ => (error_to_end_s(ls, pos), ls.len() as int, true),
        }
    }
}

/// The parse of an array whose `[` is at `pos`: the opening token starts the
/// children, and the loop takes over one past it.
pub open spec fn parse_array_s(ls: Seq<Lexeme>, pos: int) -> (NodeModel, int, bool)
    decreases ls.len() - pos, 1nat,
{
    if pos < 0 || ls.len() <= pos {
        (lex_node(Lexeme { kind: Token::EOF, cs: 0, ce: 0, bs: 0, be: 0 }), pos + 1, true)
    } else {
        let open = ls[pos];
        arr_loop_s(ls, pos + 1, seq![lex_node(open)], open.ce, open.be, false, open)
    }
}

/// One round of the array loop: trivia, then the lexeme at hand decides. The
/// accumulated children, the span end seen so far and the error flag are the
/// loop's state. A recursion position is clamped to stay past the current one;
/// the clamp never bites, since a parsed value always advances.
pub open spec fn arr_loop_s(
    ls: Seq<Lexeme>,
    p: int,
    acc: Seq<NodeModel>,
    end_c: usize,
    end_b: usize,
    erred: bool,
    open: Lexeme,
) -> (NodeModel, int, bool)
    decreases ls.len() - p, 3nat,
{
    if p < 0 || ls.len() < p {
        (lex_node(open), p, true)
    } else {
        let np = skip_trivia_s(ls, p);
        proof {
            lemma_skip_trivia_s(ls, p);
        }
        let acc1 = acc + lex_nodes(ls, p, np);
        if np >= ls.len() {
            let acc2 = if !erred {
                acc1.push(
                    NodeModel::Rule {
                        rule: Rule::Error,
                        byte_span: (open.bs, end_b),
                        char_span: (open.cs, end_c),
                        children: Seq::empty(),
                    },
                )
            } else {
                acc1
            };
            (
                NodeModel::Rule {
                    rule: Rule::Array,
                    byte_span: (open.bs, end_b),
                    char_span: (open.cs, end_c),
                    children: acc2,
                },
                np,
                true,
            )
        } else {
            let l = ls[np];
            match l.kind {
                Token::RBrak => (
                    NodeModel::Rule {
                        rule: Rule::Array,
                        byte_span: (open.bs, l.be),
                        char_span: (
                            open.cs,
                            if l.ce >= open.cs {
                                l.ce
                            } else {
                                open.cs
                            },
                        ),
                        children: acc1.push(lex_node(l)),
                    },
                    np + 1,
                    erred,
                ),
                Token::Comma => {
                    let ec = if l.ce >= end_c {
                        l.ce
                    } else {
                        end_c
                    };
                    let eb = if l.ce >= end_c {
                        l.be
                    } else {
                        end_b
                    };
                    arr_loop_s(ls, np + 1, acc1.push(lex_node(l)), ec, eb, erred, open)
                },
                Token::Error => (
                    NodeModel::Rule {
                        rule: Rule::Array,
                        byte_span: (open.bs, l.be),
                        char_span: (
                            open.cs,
                            if l.ce >= open.cs {
                                l.ce
                            } else {
                                open.cs
                            },
                        ),
                        children: acc1.push(lex_node(l)) + lex_nodes(ls, np + 1, ls.len() as int),
                    },
                    ls.len() as int,
                    true,
                ),
                Token::Colon | Token::RBrace | Token::EOF => (
                    NodeModel::Rule {
                        rule: Rule::Array,
                        byte_span: (open.bs, end_b),
                        char_span: (open.cs, end_c),
                        children: acc1.push(error_to_end_s(ls, np)),
                    },
                    ls.len() as int,
                    true,
                ),
                _ => {
                    let parsed = parse_value_s(ls, np);
                    let p2: int = if np < parsed.1 <= ls.len() {
                        parsed.1
                    } else {
                        np + 1
                    };
                    arr_loop_s(
                        ls,
                        p2,
                        acc1.push(parsed.0),
                        end_c,
                        end_b,
                        erred || parsed.2,
                        open,
                    )
                },
            }
        }
    }
}

/// The parse of an object whose `{` is at `pos`.
pub open spec fn parse_object_s(ls: Seq<Lexeme>, pos: int) -> (NodeModel, int, bool)
    decreases ls.len() - pos, 1nat,
{
    if pos < 0 || ls.len() <= pos {
        (lex_node(Lexeme { kind: Token::EOF, cs: 0, ce: 0, bs: 0, be: 0 }), pos + 1, true)
    } else {
        let open = ls[pos];
        obj_loop_s(ls, pos + 1, seq![lex_node(open)], open.ce, open.be, false, open)
    }
}

/// One round of the object loop; a string lexeme opens a member, and the
/// state is as in the array loop.
pub open spec fn obj_loop_s(
    ls: Seq<Lexeme>,
    p: int,
    acc: Seq<NodeModel>,
    end_c: usize,
    end_b: usize,
    erred: bool,
    open: Lexeme,
) -> (NodeModel, int, bool)
    decreases ls.len() - p, 3nat,
{
    if p < 0 || ls.len() < p {
        (lex_node(open), p, true)
    } else {
        let np = skip_trivia_s(ls, p);
        proof {
            lemma_skip_trivia_s(ls, p);
        }
        let acc1 = acc + lex_nodes(ls, p, np);
        if np >= ls.len() {
            let acc2 = if !erred {
                acc1.push(
                    NodeModel::Rule {
                        rule: Rule::Error,
                        byte_span: (open.bs, end_b),
                        char_span: (open.cs, end_c),
                        children: Seq::empty(),
                    },
                )
            } else {
                acc1
            };
            (
                NodeModel::Rule {
                    rule: Rule::Object,
                    byte_span: (open.bs, end_b),
                    char_span: (open.cs, end_c),
                    children: acc2,
                },
                np,
                true,
            )
        } else {
            let l = ls[np];
            match l.kind {
                Token::RBrace => (
                    NodeModel::Rule {
                        rule: Rule::Object,
                        byte_span: (open.bs, l.be),
                        char_span: (
                            open.cs,
                            if l.ce >= open.cs {
                                l.ce
                            } else {
                                open.cs
                            },
                        ),
                        children: acc1.push(lex_node(l)),
                    },
                    np + 1,
                    erred,
                ),
                Token::Comma => {
                    let ec = if l.ce >= end_c {
                        l.ce
                    } else {
                        end_c
                    };
                    let eb = if l.ce >= end_c {
                        l.be
                    } else {
                        end_b
                    };
                    obj_loop_s(ls, np + 1, acc1.push(lex_node(l)), ec, eb, erred, open)
                },
                Token::Error => (
                    NodeModel::Rule {
                        rule: Rule::Object,
                        byte_span: (open.bs, l.be),
                        char_span: (
                            open.cs,
                            if l.ce >= open.cs {
                                l.ce
                            } else {
                                open.cs
                            },
                        ),
                        children: acc1.push(lex_node(l)) + lex_nodes(ls, np + 1, ls.len() as int),
                    },
                    ls.len() as int,
                    true,
                ),
                Token::String => {
                    let parsed = parse_member_s(ls, np);
                    let p2: int = if np < parsed.1 <= ls.len() {
                        parsed.1
                    } else {
                        np + 1
                    };
                    obj_loop_s(
                        ls,
                        p2,
                        acc1.push(parsed.0),
                        end_c,
                        end_b,
                        erred || parsed.2,
                        open,
                    )
                },
                _ => (
                    NodeModel::Rule {
                        rule: Rule::Object,
                        byte_span: (open.bs, end_b),
                        char_span: (open.cs, end_c),
                        children: acc1.push(error_to_end_s(ls, np)),
                    },
                    ls.len() as int,
                    true,
                ),
            }
        }
    }
}

/// The parse of one object member whose key string is at `pos`: key, colon
/// and value, with trivia kept and missing parts turned into `Error` rules.
pub open spec fn parse_member_s(ls: Seq<Lexeme>, pos: int) -> (NodeModel, int, bool)
    decreases ls.len() - pos, 2nat,
{
    if pos < 0 || ls.len() <= pos {
        (lex_node(Lexeme { kind: Token::EOF, cs: 0, ce: 0, bs: 0, be: 0 }), pos + 1, true)
    } else {
        let key = ls[pos];
        let np = skip_trivia_s(ls, pos + 1);
        proof {
            lemma_skip_trivia_s(ls, pos + 1);
        }
        let acc1 = seq![lex_node(key)] + lex_nodes(ls, pos + 1, np);
        if np >= ls.len() || !(ls[np].kind is Colon) {
            let err = if np < ls.len() {
                error_to_end_s(ls, np)
            } else {
                NodeModel::Rule {
                    rule: Rule::Error,
                    byte_span: (key.bs, key.be),
                    char_span: (key.cs, key.ce),
                    children: Seq::empty(),
                }
            };
            let after = if np < ls.len() {
                ls.len() as int
            } else {
                np
            };
            (
                NodeModel::Rule {
                    rule: Rule::Member,
                    byte_span: (key.bs, key.be),
                    char_span: (key.cs, key.ce),
                    children: acc1.push(err),
                },
                after,
                true,
            )
        } else {
            let colon = ls[np];
            let p2 = skip_trivia_s(ls, np + 1);
            proof {
                lemma_skip_trivia_s(ls, np + 1);
            }
            let acc2 = acc1.push(lex_node(colon)) + lex_nodes(ls, np + 1, p2);
            if p2 >= ls.len() {
                let ce = if colon.ce >= key.cs {
                    colon.ce
                } else {
                    key.cs
                };
                (
                    NodeModel::Rule {
                        rule: Rule::Member,
                        byte_span: (key.bs, colon.be),
                        char_span: (key.cs, ce),
                        children: acc2.push(
                            NodeModel::Rule {
                                rule: Rule::Error,
                                byte_span: (key.bs, colon.be),
                                char_span: (key.cs, ce),
                                children: Seq::empty(),
                            },
                        ),
                    },
                    p2,
                    true,
                )
            } else {
                let lv = ls[p2];
                let parsed = parse_value_s(ls, p2);
                (
                    NodeModel::Rule {
                        rule: Rule::Member,
                        byte_span: (key.bs, lv.be),
                        char_span: (
                            key.cs,
                            if lv.ce >= key.cs {
                                lv.ce
                            } else {
                                key.cs
                            },
                        ),
                        children: acc2.push(parsed.0),
                    },
                    parsed.1,
                    parsed.2,
                )
            }
        }
    }
}

/// The parse of a whole lexeme sequence: leading trivia, at most one value,
/// trailing trivia, and everything after that as flat error tokens or one
/// `Error` rule — the specification of `Parser::parse`.
pub open spec fn parse_s(ls: Seq<Lexeme>, n_chars: int, n_bytes: int) -> NodeModel {
    let p0 = skip_trivia_s(ls, 0);
    let acc0 = lex_nodes(ls, 0, p0);
    let children = if p0 >= ls.len() {
        acc0
    } else {
        let parsed = parse_value_s(ls, p0);
        let acc1 = acc0.push(parsed.0);
        let p2 = skip_trivia_s(ls, parsed.1);
        let acc2 = acc1 + lex_nodes(ls, parsed.1, p2);
        if p2 >= ls.len() {
            acc2
        } else if ls[p2].kind is Error {
            acc2 + lex_nodes(ls, p2, ls.len() as int)
        } else {
            acc2.push(error_to_end_s(ls, p2))
        }
    };
    NodeModel::Rule {
        rule: Rule::File,
        byte_span: (0, n_bytes as usize),
        char_span: (0, n_chars as usize),
        children,
    }
}

} // verus!
