use vstd::prelude::*;

verus! {

/// The name of the database of the DAG.
pub const DAG_DB_NAME: &'static str = "DagDB";

/// The part of a stored DAG that is kept under the DAG's own key: the
/// scalars, and the keys of the three parts that are stored apart.
#[derive(Clone, Copy, Debug, PartialEq, Eq)]
pub struct PartialDag {
    pub my_id: [u8; 32],
    pub epoch: u64,
    pub current_round: u64,
    pub front: [u8; 16],
    pub dag: [u8; 16],
    pub missing_nodes: [u8; 16],
}

/// A DAG as it is held in memory: the scalars and the three parts.
#[derive(Debug)]
pub struct DagInMem<F, D, M> {
    pub my_id: [u8; 32],
    pub epoch: u64,
    pub current_round: u64,
    pub front: F,
    pub dag: D,
    pub missing_nodes: M,
}

/// Why a DAG could not be loaded.
#[derive(Clone, Copy, Debug, PartialEq, Eq, Structural)]
pub enum DagLoadError {
    /// The DAG is there and one of its parts is not.
    Inconsistency,
}

/// The column families of the database, in the order in which they are
/// opened.
pub fn column_families() -> (names: Vec<&'static str>)
    ensures
        names@.len() == 4,
        names@[0]@ == "DagInMem"@,
        names@[1]@ == "DagRoundList"@,
        names@[2]@ == "MissingNodeIdToStatusMap"@,
        names@[3]@ == "WeakLinksCreator"@,
{
    let mut names: Vec<&'static str> = Vec::new();
    names.push("DagInMem");
    names.push("DagRoundList");
    names.push("MissingNodeIdToStatusMap");
    names.push("WeakLinksCreator");
    names
}

/// Puts a DAG together from what the database holds under its key and under
/// the keys of its parts. Without an entry under its own key there is no DAG.
/// With one, all three parts have to be there.
pub fn load_dag_in_mem<F, D, M>(
    partial: Option<PartialDag>,
    front: Option<F>,
    dag: Option<D>,
    missing_nodes: Option<M>,
) -> (r: Result<Option<DagInMem<F, D, M>>, DagLoadError>)
    ensures
        match (partial, front, dag, missing_nodes) {
            (None, _, _, _) => r is Ok && r->Ok_0 is None,
            (Some(p), Some(f), Some(d), Some(m)) => {
                &&& r is Ok && r->Ok_0 is Some
                &&& r->Ok_0->Some_0.my_id == p.my_id
                &&& r->Ok_0->Some_0.epoch == p.epoch
                &&& r->Ok_0->Some_0.current_round == p.current_round
                &&& r->Ok_0->Some_0.front == f
                &&& r->Ok_0->Some_0.dag == d
                &&& r->Ok_0->Some_0.missing_nodes == m
            },
            _ => r is Err && r->Err_0 == DagLoadError::Inconsistency,
        },
{
    match partial {
        Some(partial) => {
            match (front, dag, missing_nodes) {
                (Some(front), Some(dag), Some(missing_nodes)) => {
                    let obj = DagInMem {
                        my_id: partial.my_id,
                        epoch: partial.epoch,
                        current_round: partial.current_round,
                        front,
                        dag,
                        missing_nodes,
                    };
                    Ok(Some(obj))
                },
                _ => Err(DagLoadError::Inconsistency),
            }
        },
        None => Ok(None),
    }
}

} // verus!
