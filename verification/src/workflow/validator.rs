use vstd::prelude::*;
use vstd::string::StringExecFns;

use crate::types::names::{first_index_of, is_first_of, lemma_first_index, names_contain, text_eq};
use crate::workflow::order::{lemma_order_ranks, rankable, ranks, topological_order};

verus! {

/// The edges as contracts speak of them: pairs of names.
pub open spec fn named_edges(edges: Seq<(String, String)>) -> Seq<(Seq<char>, Seq<char>)> {
    Seq::new(edges.len(), |k: int| (edges[k].0@, edges[k].1@))
}

/// The names of a table as contracts speak of them.
pub open spec fn table_names(table: Seq<String>) -> Seq<Seq<char>> {
    Seq::new(table.len(), |i: int| table[i]@)
}

/// Whether `indexed` is `named` with every name replaced by its first place
/// in `table`.
pub open spec fn indexes(
    table: Seq<Seq<char>>,
    named: Seq<(Seq<char>, Seq<char>)>,
    indexed: Seq<(usize, usize)>,
) -> bool {
    &&& indexed.len() == named.len()
    &&& forall|k: int|
        0 <= k < indexed.len() ==> is_first_of(table, named[k].0, (#[trigger] indexed[k]).0 as int)
            && is_first_of(table, named[k].1, indexed[k].1 as int)
}

/// A graph on names is acyclic exactly if the graph on the places of the
/// names is.
pub proof fn lemma_names_rank_as_places(
    table: Seq<Seq<char>>,
    named: Seq<(Seq<char>, Seq<char>)>,
    indexed: Seq<(usize, usize)>,
)
    requires
        indexes(table, named, indexed),
    ensures
        rankable(named) <==> rankable(indexed),
{
    if rankable(named) {
        let by_name = choose|rank: spec_fn(Seq<char>) -> nat| ranks(named, rank);
        let by_place = |i: usize|
            if i < table.len() {
                by_name(table[i as int])
            } else {
                0nat
            };
        assert forall|k: int| 0 <= k < indexed.len() implies by_place((#[trigger] indexed[k]).0)
            < by_place(indexed[k].1) by {
            assert(by_name(named[k].0) < by_name(named[k].1));
        }
        assert(ranks(indexed, by_place));
    }
    if rankable(indexed) {
        let by_place = choose|rank: spec_fn(usize) -> nat| ranks(indexed, rank);
        let by_name = |name: Seq<char>| by_place(first_index_of(table, name) as usize);
        assert forall|k: int| 0 <= k < named.len() implies by_name((#[trigger] named[k]).0)
            < by_name(named[k].1) by {
            lemma_first_index(table, named[k].0, indexed[k].0 as int);
            lemma_first_index(table, named[k].1, indexed[k].1 as int);
            assert(by_place(indexed[k].0) < by_place(indexed[k].1));
        }
        assert(ranks(named, by_name));
    }
}

/// The first place of `name` in `table`.
pub fn place_in(table: &Vec<String>, name: &str) -> (r: Option<usize>)
    ensures
        match r {
            Some(i) => is_first_of(table_names(table@), name@, i as int),
            None => !names_contain(table_names(table@), name@),
        },
{
    let mut i: usize = 0;
    while i < table.len()
        invariant
            i <= table.len(),
            forall|j: int| 0 <= j < i ==> table_names(table@)[j] != name@,
        decreases table.len() - i,
    {
        if text_eq(table[i].as_str(), name) {
            assert(table_names(table@)[i as int] == name@);
            return Some(i);
        }
        i = i + 1;
    }
    None
}

/// The place of `name` in `table`, which gets the name at its end where
/// it does not hold it yet.
pub fn intern(table: &mut Vec<String>, name: &str) -> (r: usize)
    ensures
        is_first_of(table_names(final(table)@), name@, r as int),
        old(table)@.len() <= final(table)@.len() <= old(table)@.len() + 1,
        forall|i: int|
            0 <= i < old(table)@.len() ==> table_names(final(table)@)[i] == table_names(
                old(table)@,
            )[i],
        final(table)@.len() == old(table)@.len() <==> names_contain(
            table_names(old(table)@),
            name@,
        ),
        final(table)@.len() > old(table)@.len() ==> table_names(final(table)@)[old(table)@.len()
            as int] == name@,
        forall|other: Seq<char>, i: int|
            is_first_of(table_names(old(table)@), other, i) ==> is_first_of(
                table_names(final(table)@),
                other,
                i,
            ),
{
    match place_in(table, name) {
        Some(i) => {
            assert(table_names(table@)[i as int] == name@);
            i
        },
        None => {
            table.push(name.to_owned());
            assert(table_names(table@)[table@.len() - 1] == name@);
            assert forall|j: int| 0 <= j < table@.len() - 1 implies table_names(table@)[j]
                != name@ by {
                assert(table_names(old(table)@)[j] == table_names(table@)[j]);
            }
            assert forall|other: Seq<char>, i: int|
                is_first_of(table_names(old(table)@), other, i) implies is_first_of(
                table_names(table@),
                other,
                i,
            ) by {
                assert(table_names(table@)[i] == table_names(old(table)@)[i]);
                assert forall|j: int| 0 <= j < i implies table_names(table@)[j] != other by {
                    assert(table_names(table@)[j] == table_names(old(table)@)[j]);
                }
            }
            table.len() - 1
        },
    }
}

/// The message of [`detect_cycles`] for a graph with a cycle.
pub open spec fn cycle_message() -> Seq<char> {
    "工作流中存在循环依赖"@
}

/// Whether the edges, pairs of a source and a target name, hold a cycle.
pub fn has_cycle(edges: &[(String, String)]) -> (r: bool)
    ensures
        r == !rankable(named_edges(edges@)),
{
    let mut table: Vec<String> = Vec::new();
    let mut indexed: Vec<(usize, usize)> = Vec::new();
    let mut k: usize = 0;
    while k < edges.len()
        invariant
            k <= edges.len(),
            indexed@.len() == k,
            forall|m: int|
                0 <= m < k ==> is_first_of(
                    table_names(table@),
                    named_edges(edges@)[m].0,
                    (#[trigger] indexed@[m]).0 as int,
                ) && is_first_of(
                    table_names(table@),
                    named_edges(edges@)[m].1,
                    indexed@[m].1 as int,
                ),
        decreases edges.len() - k,
    {
        let from = intern(&mut table, edges[k].0.as_str());
        let ghost table1 = table_names(table@);
        let to = intern(&mut table, edges[k].1.as_str());
        let ghost table2 = table_names(table@);
        let ghost indexed0 = indexed@;
        indexed.push((from, to));
        proof {
            assert forall|m: int| 0 <= m < k + 1 implies is_first_of(
                table2,
                named_edges(edges@)[m].0,
                (#[trigger] indexed@[m]).0 as int,
            ) && is_first_of(table2, named_edges(edges@)[m].1, indexed@[m].1 as int) by {
                if m < k {
                    assert(indexed@[m] == indexed0[m]);
                    assert(is_first_of(table1, named_edges(edges@)[m].0, indexed0[m].0 as int));
                    assert(is_first_of(table1, named_edges(edges@)[m].1, indexed0[m].1 as int));
                }
            }
        }
        k = k + 1;
    }
    proof {
        assert(indexes(table_names(table@), named_edges(edges@), indexed@));
        lemma_names_rank_as_places(table_names(table@), named_edges(edges@), indexed@);
    }
    let sorted = topological_order(table.len(), &indexed);
    proof {
        if sorted is Some {
            lemma_order_ranks(table@.len(), indexed@, sorted->0@);
        }
    }
    sorted.is_none()
}

/// Looks for a cycle among the edges, pairs of a source and a target name.
/// Succeeds exactly if there is none.
pub fn detect_cycles(edges: &[(String, String)]) -> (r: Result<(), String>)
    ensures
        r is Ok <==> rankable(named_edges(edges@)),
        r is Err ==> r->Err_0@ == cycle_message(),
{
    if has_cycle(edges) {
        Err(String::from_str("工作流中存在循环依赖"))
    } else {
        Ok(())
    }
}

/// Whether an edge may lead from a node of type `from` to one of type `to`:
/// from an input to a model or an output, and from a model to an output or
/// to another model.
pub open spec fn types_connect(from: Seq<char>, to: Seq<char>) -> bool {
    ||| (from == "input"@ && to == "llm"@)
    ||| (from == "llm"@ && to == "output"@)
    ||| (from == "input"@ && to == "output"@)
    ||| (from == "llm"@ && to == "llm"@)
}

/// The message of [`validate_type_match`] for two types that do not connect.
pub open spec fn mismatch_message(from: Seq<char>, to: Seq<char>) -> Seq<char> {
    "类型不匹配: "@ + from + " 不能连接到 "@ + to
}

/// Checks that an edge may lead from a node of type `from` to one of type
/// `to`.
pub fn validate_type_match(from: &str, to: &str) -> (r: Result<(), String>)
    ensures
        r is Ok <==> types_connect(from@, to@),
        r is Err ==> r->Err_0@ == mismatch_message(from@, to@),
{
    let from_input = text_eq(from, "input");
    let from_llm = text_eq(from, "llm");
    let to_llm = text_eq(to, "llm");
    let to_output = text_eq(to, "output");
    if (from_input && to_llm) || (from_llm && to_output) || (from_input && to_output) || (from_llm
        && to_llm) {
        Ok(())
    } else {
        let mut msg = String::from_str("类型不匹配: ");
        msg.append(from);
        msg.append(" 不能连接到 ");
        msg.append(to);
        Err(msg)
    }
}

} // verus!
