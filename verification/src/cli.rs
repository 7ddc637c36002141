//! The RPC source as the command line describes it.

use vstd::prelude::*;

use crate::headers::{
    all_have_colon, all_headers_valid, first_arg_without_colon, first_header_error,
    distinct_names, header_error_message, header_map_of, parse_header_args, split_args, MAX_HEADERS,
};
use crate::rpc::{BuilderView, RPCBlocksAndWitnessesBuilder};

verus! {

/// The message when neither a count of blocks nor a block number was given.
pub open spec fn missing_selection_message() -> Seq<char> {
    "Either --last-n-blocks or --block must be specified"@
}

/// The header arguments given, none if the option was absent.
pub open spec fn header_args(rpc_header: Option<Vec<String>>) -> Seq<String> {
    match rpc_header {
        Some(h) => h@,
        None => Seq::empty(),
    }
}

/// The builder for the RPC source of the command line: `--rpc-url`,
/// `--last-n-blocks` or `--block` (one of them is needed; the block number
/// wins), and the `key:value` headers. Fails, in this order, when no block
/// selection is given, on the first header argument without a `:`, and on
/// the first header that `http` refuses.
pub fn rpc_builder_from_args(
    rpc_url: String,
    last_n_blocks: Option<usize>,
    block: Option<u64>,
    rpc_header: Option<Vec<String>>,
) -> (res: Result<RPCBlocksAndWitnessesBuilder, String>)
    requires
        all_have_colon(header_args(rpc_header)) ==> distinct_names(split_args(header_args(rpc_header)))
            <= MAX_HEADERS,
    ensures
        last_n_blocks is None && block is None ==> (res matches Err(m) && m@
            == missing_selection_message()),
        last_n_blocks is None && block is None ==> (res matches Err(m) && m@
            == "Either --last-n-blocks or --block must be specified"@),
        !(last_n_blocks is None && block is None) ==> match res {
            Ok(b) => {
                let args = header_args(rpc_header);
                &&& all_have_colon(args)
                &&& all_headers_valid(split_args(args))
                &&& b@ == (BuilderView {
                    url: rpc_url@,
                    headers: header_map_of(split_args(args)),
                    last_n_blocks: if block is Some {
                        None
                    } else {
                        last_n_blocks
                    },
                    block: block,
                })
            },
            Err(m) => {
                let args = header_args(rpc_header);
                ||| first_arg_without_colon(args, m@)
                ||| all_have_colon(args) && exists|e: crate::headers::HeaderError|
                    first_header_error(split_args(args), e) && m@ == header_error_message(e)
            },
        },
{
    if last_n_blocks.is_none() && block.is_none() {
        let mut m = String::new();
        m.append("Either --last-n-blocks or --block must be specified");
        return Err(m);
    }
    let args = match rpc_header {
        Some(h) => h,
        None => Vec::new(),
    };
    let pairs = match parse_header_args(&args) {
        Ok(pairs) => pairs,
        Err(m) => return Err(m),
    };
    let builder = match RPCBlocksAndWitnessesBuilder::new(rpc_url).with_headers(pairs) {
        Ok(b) => b,
        Err(e) => {
            let mut m = String::new();
            m.append(e.message());
            return Err(m);
        },
    };
    match block {
        Some(b) => Ok(builder.specific_block(b)),
        None => match last_n_blocks {
            Some(n) => Ok(builder.last_n_blocks(n)),
            None => Ok(builder),
        },
    }
}

} // verus!
