//! The node of a distributed pipeline that collects the results of local
//! plans.

use vstd::prelude::*;

verus! {

/// Whether no name is given to two lists of partitions: the partitions are
/// a map from the name of an input to its partitions.
pub open spec fn distinct_names<S>(input_psets: Seq<(String, Vec<S>)>) -> bool {
    forall|i: int, j: int|
        0 <= i < j < input_psets.len() ==> (#[trigger] input_psets[i]).0@ != (
        #[trigger] input_psets[j]).0@
}

/// Whether plans, children and partitions make a node: there is a plan, no
/// input has its partitions twice, and a node with children has no
/// partitions of its own and a single plan.
pub open spec fn makes_node<P, C, S>(
    local_physical_plans: Seq<P>,
    children: Seq<C>,
    input_psets: Seq<(String, Vec<S>)>,
) -> bool {
    &&& local_physical_plans.len() > 0
    &&& distinct_names(input_psets)
    &&& children.len() > 0 ==> input_psets.len() == 0 && local_physical_plans.len() == 1
}

/// Whether no name is given to two lists of partitions.
fn has_distinct_names<S>(input_psets: &Vec<(String, Vec<S>)>) -> (res: bool)
    ensures
        res == distinct_names(input_psets@),
{
    let mut j: usize = 0;
    while j < input_psets.len()
        invariant
            j <= input_psets.len(),
            forall|a: int, b: int|
                0 <= a < b < j ==> (#[trigger] input_psets[a]).0@ != (#[trigger] input_psets[b]).0@,
        decreases input_psets.len() - j,
    {
        let mut i: usize = 0;
        while i < j
            invariant
                i <= j < input_psets.len(),
                forall|a: int| 0 <= a < i ==> (#[trigger] input_psets[a]).0@ != input_psets[j as int].0@,
            decreases j - i,
        {
            if input_psets[i].0 == input_psets[j].0 {
                assert(input_psets[i as int].0@ == input_psets[j as int].0@);
                return false;
            }
            i += 1;
        }
        j += 1;
    }
    true
}

/// A node that runs local physical plans `P` over the output of its
/// children `C` or over the given partitions `S` of named inputs. The
/// partitions are held in the order in which they were given.
pub struct CollectNode<P, C, S> {
    pub local_physical_plans: Vec<P>,
    pub children: Vec<C>,
    pub input_psets: Vec<(String, Vec<S>)>,
}

impl<P, C, S> CollectNode<P, C, S> {
    /// A node of at least one plan, whose inputs each have their partitions
    /// once. A node with children reads their output: it has no partitions
    /// of its own and a single plan.
    pub fn new(
        local_physical_plans: Vec<P>,
        children: Vec<C>,
        input_psets: Vec<(String, Vec<S>)>,
    ) -> (res: Self)
        requires
            makes_node(local_physical_plans@, children@, input_psets@),
        ensures
            res.local_physical_plans == local_physical_plans,
            res.children == children,
            res.input_psets == input_psets,
    {
        CollectNode { local_physical_plans, children, input_psets }
    }

    /// Whether a node can be made of the plans, children and partitions.
    pub fn accepts(
        local_physical_plans: &Vec<P>,
        children: &Vec<C>,
        input_psets: &Vec<(String, Vec<S>)>,
    ) -> (res: bool)
        ensures
            res == makes_node(local_physical_plans@, children@, input_psets@),
    {
        local_physical_plans.len() > 0 && has_distinct_names(input_psets) && (children.len() == 0
            || (input_psets.len() == 0 && local_physical_plans.len() == 1))
    }
}

} // verus!
