//! A streaming decoder for the binary snapshot format of a well-known
//! in-memory key/value store: it verifies the preamble, walks the top-level
//! opcodes, decodes every value encoding, and renders each admitted key as a
//! sequence of structured events, gated by a filter.
use vstd::prelude::*;

pub mod constants;
pub mod types;
pub mod events;
pub mod reader;
pub mod decimal;
pub mod model;
pub mod codec;
pub mod filter;
pub mod parser;
pub mod laws;

pub use events::Event;
pub use events::Score;
pub use filter::Filter;
pub use filter::Simple;
pub use parser::RdbParser;
pub use types::RdbError;
pub use types::RdbOk;
pub use types::RdbResult;
pub use types::Type;
pub use types::ZiplistEntry;

verus! {

/// Decode a whole snapshot: the events of every key the filter admits, in
/// emission order, or the first fault.
pub fn parse<L: Filter>(input: Vec<u8>, filter: L) -> (r: Result<Vec<Event<Vec<u8>>>, RdbError>)
    ensures
        match crate::model::parse_dec(input@, filter.fspec()) {
            Ok(o) => r matches Ok(evs) && evs@.map_values(|e: Event<Vec<u8>>| e@) == o.events,
            Err(e) => r == Err::<Vec<Event<Vec<u8>>>, RdbError>(e),
        },
{
    let mut rdb_parser = RdbParser::new(input, filter);
    match rdb_parser.parse() {
        Ok(()) => {
            let evs = rdb_parser.into_events();
            proof {
                match crate::model::parse_dec(input@, filter.fspec()) {
                    Ok(o) => {
                        assert(evs@.map_values(|e: Event<Vec<u8>>| e@) =~= o.events);
                    },
                    Err(_) => (),
                }
            }
            Ok(evs)
        },
        Err(e) => Err(e),
    }
}

} // verus!
