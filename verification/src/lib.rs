pub mod commands;
pub mod error;
pub mod graph;
pub mod helpers;
pub mod memory;
pub mod neighbour_values;
pub mod numtext;
pub mod process;
pub mod reclass;
pub mod region;
pub mod remote;
pub mod results;

pub use commands::{tokenize, tokens_of, Command};
pub use helpers::windowed;
pub use helpers::chunk_while::ChunkWhile;
pub use neighbour_values::{NeighbourValues, NeighbourValuesQuery};
pub use error::{BetrayalError, BetrayalResult};
pub use region::{AddressInfo, MapPath, Region, StaticLocation};
pub use graph::{build_pointer_tree, has_node, linked_into, pointer_graph_edges, pointer_graph_nodes, pointer_map, PointerGraph};
pub use process::{filter_matches_spec, find_equal_to, find_in_range, scan_bytes, scan_bytes_spec, window_count, Filter, ProcessQuery};
pub use remote::{read_memory, write_memory};
pub use results::{AddressValue, CurrentQueryResults, Writer};
pub use memory::{AddressEntry, ReadFromBytes};
