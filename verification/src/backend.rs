//! Where a transaction's trace comes from: replaying it locally with
//! `cast run`, or asking a node for its parity-style trace.

use vstd::prelude::*;

use crate::arena::Word;
use crate::text::views;
use crate::values::{hex_of, hex_prefixed};

verus! {

/// How to get a transaction's trace.
#[derive(Clone, Copy, Debug, PartialEq, Eq, Structural)]
pub enum Strategy {
    LocalCastRun,
    TraceTransactionRpc,
}

/// The node to ask, the transaction, and whether to replay the transactions
/// before it in its block.
#[derive(Clone, Debug)]
pub struct TraceOpts {
    pub url: String,
    pub tx_hash: Word,
    pub replay: bool,
}

/// The arguments of `cast` that replay a transaction against a node and
/// print its trace as JSON; without replay, `--quick` skips the block's
/// earlier transactions.
pub open spec fn cast_args(url: Seq<char>, tx_hash: Word, replay: bool) -> Seq<Seq<char>> {
    seq!["run"@, "0x"@ + hex_of(tx_hash@), "--rpc-url"@, url, "--json"@] + if replay {
        seq![]
    } else {
        seq!["--quick"@]
    }
}

/// The `cast` arguments: `run`, the transaction hash as `0x` and two
/// lowercase hex digits per byte, `--rpc-url` and the node's URL, then
/// always `--json`, and `--quick` as the last argument exactly when the
/// block's earlier transactions are not replayed.
pub proof fn law_cast_args(url: Seq<char>, tx_hash: Word, replay: bool)
    ensures
        ({
            let a = cast_args(url, tx_hash, replay);
            &&& a.len() == if replay { 5int } else { 6int }
            &&& a[0] == "run"@
            &&& a[1] == "0x"@ + hex_of(tx_hash@)
            &&& a[2] == "--rpc-url"@
            &&& a[3] == url
            &&& a[4] == "--json"@
            &&& !replay ==> a[5] == "--quick"@
            &&& a.contains("--json"@)
            &&& (a.contains("--quick"@) <==> (!replay || url == "--quick"@))
        }),
{
    reveal_strlit("run");
    reveal_strlit("--rpc-url");
    reveal_strlit("--json");
    reveal_strlit("--quick");
    reveal_strlit("0x");
    let a = cast_args(url, tx_hash, replay);
    assert(a[4] == "--json"@);
    if !replay {
        assert(a[5] == "--quick"@);
    }
    if a.contains("--quick"@) {
        let i = choose|i: int| 0 <= i < a.len() && a[i] == "--quick"@;
        if replay && url != "--quick"@ {
            assert(a[0].len() != "--quick"@.len());
            assert(a[2].len() != "--quick"@.len());
            assert(a[4].len() != "--quick"@.len());
            assert(a[1][0] != "--quick"@[0]);
        }
    }
    if url == "--quick"@ {
        assert(a[3] == "--quick"@);
    }
}

impl TraceOpts {
    /// Options for a node's URL, a transaction hash and the replay flag.
    pub fn new(url: String, tx_hash: Word, replay: bool) -> (r: TraceOpts)
        ensures
            r.url == url,
            r.tx_hash == tx_hash,
            r.replay == replay,
    {
        TraceOpts { url, tx_hash, replay }
    }

    /// The arguments of `cast` for these options.
    pub fn cast_run_args(&self) -> (r: Vec<String>)
        ensures
            views(r@) == cast_args(self.url@, self.tx_hash, self.replay),
    {
        let mut args: Vec<String> = Vec::new();
        args.push(String::from_str("run"));
        let hash = hex_prefixed(&self.tx_hash);
        args.push(hash);
        args.push(String::from_str("--rpc-url"));
        args.push(self.url.clone());
        args.push(String::from_str("--json"));
        if !self.replay {
            args.push(String::from_str("--quick"));
        }
        proof {
            assert(seq!['0', 'x'] =~= "0x"@) by {
                reveal_strlit("0x");
            }
            assert(views(args@) =~= cast_args(self.url@, self.tx_hash, self.replay));
        }
        args
    }
}

/// Why `cast run` gave no trace: its output did not parse (with the parse
/// error's message), or it failed (with what it printed on stderr).
#[derive(Clone, Debug)]
pub enum CastRunError {
    Parse(String),
    Failed(String),
}

impl CastRunError {
    /// The message of the error.
    pub open spec fn spec_message(&self) -> Seq<char> {
        match self {
            CastRunError::Parse(m) => m@,
            CastRunError::Failed(stderr) => "cast run failed: "@ + stderr@,
        }
    }

    /// The message of the error.
    pub fn to_string(&self) -> (r: String)
        ensures
            r@ == self.spec_message(),
    {
        match self {
            CastRunError::Parse(m) => m.clone(),
            CastRunError::Failed(stderr) => {
                let mut s = String::from_str("cast run failed: ");
                crate::text::push_str(&mut s, stderr.as_str());
                s
            },
        }
    }
}

/// What a finished `cast run` gives: the parsed trace when it succeeded and
/// its output parsed, the parse error when it succeeded but its output did
/// not parse, and its failure with its stderr when it failed, whatever its
/// output was.
pub fn cast_run_result<T>(parsed: Result<T, String>, success: bool, stderr: String) -> (r: Result<
    T,
    CastRunError,
>)
    ensures
        success ==> match parsed {
            Ok(t) => r == Ok::<T, CastRunError>(t),
            Err(e) => r == Err::<T, CastRunError>(CastRunError::Parse(e)),
        },
        !success ==> r == Err::<T, CastRunError>(CastRunError::Failed(stderr)),
{
    if success {
        match parsed {
            Ok(t) => Ok(t),
            Err(e) => Err(CastRunError::Parse(e)),
        }
    } else {
        Err(CastRunError::Failed(stderr))
    }
}

} // verus!
