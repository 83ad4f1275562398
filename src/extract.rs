//! What one source file contributes: its include patterns and its
//! definitions, and the edges that the definitions give.
use crate::emit::{edge_text, graph_close_text, graph_open_text, graph_text, ratio_text};
use vstd::prelude::*;
use vstd::string::*;

verus! {

/// A named block and the names used inside its body, in source order.
pub struct Definition {
    pub name: String,
    pub uses: Vec<String>,
}

impl View for Definition {
    type V = (Seq<char>, Seq<Seq<char>>);

    open spec fn view(&self) -> (Seq<char>, Seq<Seq<char>>) {
        (self.name@, strings_view(self.uses@))
    }
}

/// The parts of one parsed file that the walk reads: the include string
/// literals as written (quotes and all) and the definitions, in source order.
pub struct FileSummary {
    pub includes: Vec<String>,
    pub definitions: Vec<Definition>,
}

/// The characters of each string.
pub open spec fn strings_view(v: Seq<String>) -> Seq<Seq<char>> {
    v.map_values(|s: String| s@)
}

/// Each definition as its name and its uses.
pub open spec fn definitions_view(v: Seq<Definition>) -> Seq<(Seq<char>, Seq<Seq<char>>)> {
    v.map_values(|d: Definition| d@)
}

/// `s` without its leading quote characters.
pub open spec fn drop_leading_quotes(s: Seq<char>) -> Seq<char>
    decreases s.len(),
{
    if s.len() > 0 && s[0] == '"' {
        drop_leading_quotes(s.drop_first())
    } else {
        s
    }
}

/// `s` without its trailing quote characters.
pub open spec fn drop_trailing_quotes(s: Seq<char>) -> Seq<char>
    decreases s.len(),
{
    if s.len() > 0 && s.last() == '"' {
        drop_trailing_quotes(s.drop_last())
    } else {
        s
    }
}

/// The glob pattern of an include literal: the literal with every quote
/// character at either end removed.
pub open spec fn unquoted(s: Seq<char>) -> Seq<char> {
    drop_trailing_quotes(drop_leading_quotes(s))
}

/// The edges of one definition: its name paired with each use, in order.
pub open spec fn definition_edges(d: (Seq<char>, Seq<Seq<char>>)) -> Seq<(Seq<char>, Seq<char>)> {
    d.1.map_values(|u: Seq<char>| (d.0, u))
}

/// The edges of a file's definitions, definition after definition.
pub open spec fn file_edges(ds: Seq<(Seq<char>, Seq<Seq<char>>)>) -> Seq<(Seq<char>, Seq<char>)>
    decreases ds.len(),
{
    if ds.len() == 0 {
        seq![]
    } else {
        file_edges(ds.drop_last()) + definition_edges(ds.last())
    }
}

/// The emitted lines of a sequence of edges.
pub open spec fn edge_lines(es: Seq<(Seq<char>, Seq<char>)>) -> Seq<Seq<char>> {
    es.map_values(|e: (Seq<char>, Seq<char>)| edge_text(e.0, e.1))
}

/// A file whose only definition is `name` with `uses` gives one edge per use,
/// each from `name`, in the order of the uses; the whole graph then has those
/// edge lines between the two header lines and the footer.
pub proof fn lemma_single_definition_edges(name: Seq<char>, uses: Seq<Seq<char>>)
    ensures
        file_edges(seq![(name, uses)]).len() == uses.len(),
        forall|k: int|
            0 <= k < uses.len() ==> #[trigger] file_edges(seq![(name, uses)])[k] == (name, uses[k]),
        graph_text(file_edges(seq![(name, uses)])).len() == uses.len() + 3,
        graph_text(file_edges(seq![(name, uses)]))[0] == graph_open_text(),
        graph_text(file_edges(seq![(name, uses)]))[1] == ratio_text(),
        forall|k: int|
            0 <= k < uses.len() ==> #[trigger] graph_text(file_edges(seq![(name, uses)]))[k + 2]
                == edge_text(name, uses[k]),
        graph_text(file_edges(seq![(name, uses)]))[uses.len() + 2int] == graph_close_text(),
{
    let ds = seq![(name, uses)];
    assert(ds.drop_last() =~= Seq::<(Seq<char>, Seq<Seq<char>>)>::empty());
    assert(file_edges(ds.drop_last()) =~= Seq::<(Seq<char>, Seq<char>)>::empty());
    assert(file_edges(ds) =~= definition_edges((name, uses)));
}

/// Every edge of a file comes from one of its definitions: one named as the
/// edge's source, with a use of the edge's target in its body.
pub proof fn lemma_edge_from_definition(ds: Seq<(Seq<char>, Seq<Seq<char>>)>, k: int)
    requires
        0 <= k < file_edges(ds).len(),
    ensures
        exists|i: int, j: int|
            0 <= i < ds.len() && 0 <= j < ds[i].1.len() && #[trigger] ds[i].0 == file_edges(ds)[k].0
                && #[trigger] ds[i].1[j] == file_edges(ds)[k].1,
    decreases ds.len(),
{
    let front = file_edges(ds.drop_last());
    if k < front.len() {
        lemma_edge_from_definition(ds.drop_last(), k);
        let (i, j) = choose|i: int, j: int|
            0 <= i < ds.drop_last().len() && 0 <= j < ds.drop_last()[i].1.len()
                && #[trigger] ds.drop_last()[i].0 == front[k].0 && #[trigger] ds.drop_last()[i].1[j]
                == front[k].1;
        assert(ds[i] == ds.drop_last()[i]);
    } else {
        let i = ds.len() - 1;
        let j = k - front.len();
        assert(ds[i].0 == file_edges(ds)[k].0);
        assert(ds[i].1[j] == file_edges(ds)[k].1);
    }
}

/// The glob pattern held by an include string literal.
pub fn glob_pattern(literal: &str) -> (r: String)
    ensures
        r@ == unquoted(literal@),
{
    let s = Ghost(literal@);
    let n = literal.unicode_len();
    let mut i: usize = 0;
    assert(s@.subrange(0, n as int) =~= s@);
    while i < n && literal.get_char(i) == '"'
        invariant
            i <= n,
            n == s@.len(),
            s@ == literal@,
            drop_leading_quotes(s@) == drop_leading_quotes(s@.subrange(i as int, n as int)),
        decreases n - i,
    {
        assert(s@.subrange(i as int, n as int).drop_first() =~= s@.subrange(i + 1, n as int));
        i = i + 1;
    }
    assert(drop_leading_quotes(s@) == s@.subrange(i as int, n as int));
    let mut j: usize = n;
    while j > i && literal.get_char(j - 1) == '"'
        invariant
            i <= j <= n,
            n == s@.len(),
            s@ == literal@,
            drop_trailing_quotes(s@.subrange(i as int, n as int)) == drop_trailing_quotes(
                s@.subrange(i as int, j as int),
            ),
        decreases j,
    {
        assert(s@.subrange(i as int, j as int).drop_last() =~= s@.subrange(i as int, j - 1));
        j = j - 1;
    }
    let r = literal.substring_char(i, j);
    String::from_str(r)
}

/// The edge lines of a file's definitions, in order.
pub fn definition_lines(defs: &Vec<Definition>) -> (r: Vec<String>)
    ensures
        strings_view(r@) == edge_lines(file_edges(definitions_view(defs@))),
{
    let ghost dv = definitions_view(defs@);
    let mut r: Vec<String> = Vec::new();
    let mut i: usize = 0;
    while i < defs.len()
        invariant
            i <= defs@.len(),
            dv == definitions_view(defs@),
            strings_view(r@) == edge_lines(file_edges(dv.take(i as int))),
        decreases defs@.len() - i,
    {
        let d = &defs[i];
        let ghost before = file_edges(dv.take(i as int));
        assert(dv.take(i + 1).drop_last() =~= dv.take(i as int));
        assert(file_edges(dv.take(i + 1)) == before + definition_edges(dv[i as int]));
        let mut j: usize = 0;
        while j < d.uses.len()
            invariant
                i < defs@.len(),
                d == defs@[i as int],
                dv == definitions_view(defs@),
                j <= d.uses@.len(),
                strings_view(r@) == edge_lines(
                    before + definition_edges(dv[i as int]).take(j as int),
                ),
            decreases d.uses@.len() - j,
        {
            let line = crate::emit::edge_line(d.name.as_str(), d.uses[j].as_str());
            let ghost es = before + definition_edges(dv[i as int]).take(j as int);
            let ghost es2 = before + definition_edges(dv[i as int]).take(j + 1);
            assert(es2 =~= es.push((d.name@, d.uses@[j as int]@)));
            let ghost r0 = r@;
            r.push(line);
            assert(strings_view(r@) =~= strings_view(r0).push(line@));
            assert(edge_lines(es2) =~= edge_lines(es).push(line@));
            j = j + 1;
        }
        assert(definition_edges(dv[i as int]).take(j as int) =~= definition_edges(dv[i as int]));
        i = i + 1;
    }
    assert(dv.take(defs@.len() as int) =~= dv);
    r
}

} // verus!
