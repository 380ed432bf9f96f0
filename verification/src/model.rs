//! The texture names of a model (RSM file).

use vstd::prelude::*;

verus! {

/// Whether version `major.minor` is at least 2.3, from which on each node of
/// a model names its own textures.
pub open spec fn names_textures_per_node(major: u8, minor: u8) -> bool {
    major > 2 || (major == 2 && minor >= 3)
}

/// The texture names of the nodes, one node after the other.
pub open spec fn all_node_names(nodes: Seq<Seq<Seq<char>>>) -> Seq<Seq<char>>
    decreases nodes.len(),
{
    if nodes.len() == 0 {
        Seq::empty()
    } else {
        all_node_names(nodes.drop_last()) + nodes.last()
    }
}

/// The names, each kept where it first occurs.
pub open spec fn first_occurrences(names: Seq<Seq<char>>) -> Seq<Seq<char>>
    decreases names.len(),
{
    if names.len() == 0 {
        Seq::empty()
    } else {
        let kept = first_occurrences(names.drop_last());
        if kept.contains(names.last()) {
            kept
        } else {
            kept.push(names.last())
        }
    }
}

/// The textures of a model: before version 2.3 the model's own list; from
/// it on, the names of all nodes, each once, in the order they first occur.
pub open spec fn model_texture_names(
    major: u8,
    minor: u8,
    texture_names: Seq<Seq<char>>,
    node_texture_names: Seq<Seq<Seq<char>>>,
) -> Seq<Seq<char>> {
    if names_textures_per_node(major, minor) {
        first_occurrences(all_node_names(node_texture_names))
    } else {
        texture_names
    }
}

/// The textures of a model of version `major.minor`, given its own list
/// (`texture_names`) and the lists of its nodes.
pub fn collect_versioned_texture_names(
    major: u8,
    minor: u8,
    texture_names: &[String],
    node_texture_names: &[Vec<String>],
) -> (names: Vec<String>)
    ensures
        names@.map_values(|name: String| name@) == model_texture_names(
            major,
            minor,
            texture_names@.map_values(|name: String| name@),
            node_texture_names@.map_values(|node: Vec<String>| node@.map_values(|name: String| name@)),
        ),
{
    let ghost nodes = node_texture_names@.map_values(|node: Vec<String>| node@.map_values(|name: String| name@));
    let mut result: Vec<String> = Vec::new();
    if !(major > 2 || (major == 2 && minor >= 3)) {
        let mut k: usize = 0;
        while k < texture_names.len()
            invariant
                k <= texture_names@.len(),
                result@.map_values(|name: String| name@) == texture_names@.take(k as int).map_values(|name: String| name@),
            decreases texture_names.len() - k,
        {
            let copy = texture_names[k].clone();
            let ghost kept = result@.map_values(|name: String| name@);
            result.push(copy);
            assert(result@.map_values(|name: String| name@) =~= kept.push(texture_names@[k as int]@));
            assert(result@.map_values(|name: String| name@) =~= texture_names@.take(k + 1).map_values(|name: String| name@));
            k = k + 1;
        }
        assert(texture_names@.take(k as int) =~= texture_names@);
        return result;
    }
    let mut n: usize = 0;
    while n < node_texture_names.len()
        invariant
            nodes == node_texture_names@.map_values(|node: Vec<String>| node@.map_values(|name: String| name@)),
            n <= node_texture_names@.len(),
            result@.map_values(|name: String| name@) == first_occurrences(all_node_names(nodes.take(n as int))),
        decreases node_texture_names.len() - n,
    {
        let node = &node_texture_names[n];
        let ghost before = all_node_names(nodes.take(n as int));
        let mut i: usize = 0;
        while i < node.len()
            invariant
                nodes == node_texture_names@.map_values(|node: Vec<String>| node@.map_values(|name: String| name@)),
                n < node_texture_names@.len(),
                *node == node_texture_names@[n as int],
                before == all_node_names(nodes.take(n as int)),
                i <= node@.len(),
                result@.map_values(|name: String| name@) == first_occurrences(
                    before + node@.take(i as int).map_values(|name: String| name@),
                ),
            decreases node.len() - i,
        {
            let name = &node[i];
            let ghost seen = before + node@.take(i as int).map_values(|name: String| name@);
            let ghost kept = result@.map_values(|name: String| name@);
            let mut found = false;
            let mut j: usize = 0;
            while j < result.len()
                invariant
                    j <= result@.len(),
                    kept == result@.map_values(|name: String| name@),
                    found <==> exists|m: int| 0 <= m < j && kept[m] == name@,
                decreases result.len() - j,
            {
                assert(kept[j as int] == result@[j as int]@);
                if result[j] == *name {
                    found = true;
                }
                j = j + 1;
            }
            assert(seen.push(name@) =~= before + node@.take(i + 1).map_values(|name: String| name@));
            assert(seen.push(name@).drop_last() =~= seen);
            if found {
                assert(kept.contains(name@));
            } else {
                assert(!kept.contains(name@));
                let copy = name.clone();
                result.push(copy);
                assert(result@.map_values(|name: String| name@) =~= kept.push(name@));
            }
            i = i + 1;
        }
        assert(node@.take(i as int) =~= node@);
        assert(nodes.take(n + 1).drop_last() =~= nodes.take(n as int));
        assert(nodes[n as int] == node@.map_values(|name: String| name@));
        assert(all_node_names(nodes.take(n + 1)) == before + nodes[n as int]);
        n = n + 1;
    }
    assert(nodes.take(n as int) =~= nodes);
    result
}

/// Each texture name is kept once: no name occurs twice among the textures
/// that the nodes name.
pub proof fn lemma_first_occurrences_distinct(names: Seq<Seq<char>>)
    ensures
        forall|a: int, b: int|
            0 <= a < b < first_occurrences(names).len() ==> first_occurrences(names)[a] != first_occurrences(names)[b],
        forall|a: int| 0 <= a < first_occurrences(names).len() ==> names.contains(#[trigger] first_occurrences(names)[a]),
        forall|a: int| 0 <= a < names.len() ==> first_occurrences(names).contains(#[trigger] names[a]),
    decreases names.len(),
{
    if names.len() > 0 {
        let rest = names.drop_last();
        lemma_first_occurrences_distinct(rest);
        let kept = first_occurrences(rest);
        assert forall|a: int| 0 <= a < first_occurrences(names).len() implies names.contains(
            #[trigger] first_occurrences(names)[a],
        ) by {
            if a < kept.len() {
                assert(rest.contains(kept[a]));
                let w = choose|w: int| 0 <= w < rest.len() && rest[w] == kept[a];
                assert(names[w] == rest[w]);
            } else {
                assert(names[names.len() - 1] == names.last());
            }
        }
        assert forall|a: int| 0 <= a < names.len() implies first_occurrences(names).contains(#[trigger] names[a]) by {
            if a < names.len() - 1 {
                assert(names[a] == rest[a]);
                assert(kept.contains(rest[a]));
                let w = choose|w: int| 0 <= w < kept.len() && kept[w] == rest[a];
                assert(first_occurrences(names)[w] == kept[w]);
            } else {
                if !kept.contains(names.last()) {
                    assert(first_occurrences(names)[kept.len() as int] == names.last());
                }
            }
        }
    }
}

} // verus!
