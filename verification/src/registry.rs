//! The dataset registry: the descriptors of the known point datasets,
//! loaded once at startup from the descriptor file by the embedding
//! program and read-shared across requests. The core only ever looks
//! datasets up by name.

use vstd::prelude::*;

verus! {

/// One point dataset: its name, the directory its files live under, and
/// the names of its longitude and latitude columns.
#[derive(Debug, Clone)]
pub struct ParquetDataset {
    pub name: String,
    pub directory: String,
    pub lat_col: String,
    pub lon_col: String,
}

/// The descriptor file's contents: the datasets, in file order.
#[derive(Debug, Clone)]
pub struct ParquetConfig {
    pub datasets: Vec<ParquetDataset>,
}

/// Looks a dataset up by name. Exactly the entries whose name matches are
/// candidates, and on duplicate names the first entry wins.
pub fn find_dataset<'a>(datasets: &'a Vec<ParquetDataset>, name: &String) -> (r: Option<
    &'a ParquetDataset,
>)
    ensures
        match r {
            None => forall|k: int|
                0 <= k < datasets@.len() ==> (#[trigger] datasets@[k]).name@ != name@,
            Some(d) => exists|i: int|
                0 <= i < datasets@.len() && *d == datasets@[i] && datasets@[i].name@ == name@ && (
                forall|k: int| 0 <= k < i ==> (#[trigger] datasets@[k]).name@ != name@),
        },
{
    let mut i: usize = 0;
    while i < datasets.len()
        invariant
            0 <= i <= datasets@.len(),
            forall|k: int| 0 <= k < i ==> (#[trigger] datasets@[k]).name@ != name@,
        decreases datasets@.len() - i,
    {
        if datasets[i].name == *name {
            return Some(&datasets[i]);
        }
        i += 1;
    }
    None
}

} // verus!
