//! The text of the emitted graph: a fixed header, one line per edge, a footer.
use vstd::prelude::*;

verus! {

/// First header line.
pub open spec fn graph_open_text() -> Seq<char> {
    seq!['d', 'i', 'g', 'r', 'a', 'p', 'h', ' ', 'U', 's', 'e', 's', ' ', '{']
}

/// Second header line: the layout attribute.
pub open spec fn ratio_text() -> Seq<char> {
    seq![' ', ' ', 'r', 'a', 't', 'i', 'o', '=', '1', '.', '3', ';']
}

/// The closing line.
pub open spec fn graph_close_text() -> Seq<char> {
    seq!['}']
}

/// One edge line: two spaces, the quoted source label, an arrow, the quoted
/// target label and a semicolon. Labels are written as they are.
pub open spec fn edge_text(from: Seq<char>, to: Seq<char>) -> Seq<char> {
    seq![' ', ' ', '"'] + from + seq!['"', ' ', '-', '>', ' ', '"'] + to + seq!['"', ';']
}

/// The whole graph, line by line, for edges given in emission order.
pub open spec fn graph_text(edges: Seq<(Seq<char>, Seq<char>)>) -> Seq<Seq<char>> {
    seq![graph_open_text(), ratio_text()] + edges.map_values(
        |e: (Seq<char>, Seq<char>)| edge_text(e.0, e.1),
    ) + seq![graph_close_text()]
}

/// The two header lines, written once before any edge.
pub fn header_lines() -> (r: Vec<String>)
    ensures
        r@.len() == 2,
        r@[0]@ == graph_open_text(),
        r@[1]@ == ratio_text(),
{
    let a = String::from_str("digraph Uses {");
    let b = String::from_str("  ratio=1.3;");
    proof {
        reveal_strlit("digraph Uses {");
        reveal_strlit("  ratio=1.3;");
        assert(a@ =~= graph_open_text());
        assert(b@ =~= ratio_text());
    }
    let mut r: Vec<String> = Vec::new();
    r.push(a);
    r.push(b);
    r
}

/// The footer line, written once after the last edge.
pub fn footer_line() -> (r: String)
    ensures
        r@ == graph_close_text(),
{
    let r = String::from_str("}");
    proof {
        reveal_strlit("}");
        assert(r@ =~= graph_close_text());
    }
    r
}

/// The line for the edge `from -> to`.
pub fn edge_line(from: &str, to: &str) -> (r: String)
    ensures
        r@ == edge_text(from@, to@),
{
    let mut r = String::from_str("  \"");
    r.append(from);
    r.append("\" -> \"");
    r.append(to);
    r.append("\";");
    proof {
        reveal_strlit("  \"");
        reveal_strlit("\" -> \"");
        reveal_strlit("\";");
        assert(r@ =~= edge_text(from@, to@));
    }
    r
}

} // verus!
