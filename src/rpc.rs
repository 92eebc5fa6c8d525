//! Settings of the JSON-RPC server: where it listens and which APIs it serves.
use vstd::prelude::*;
use vstd::string::StringSliceAdditionalSpecFns;

verus! {

/// Settings of the JSON-RPC server.
pub struct Configuration {
    pub enabled: bool,
    pub interface: String,
    pub port: u16,
    pub apis: String,
    pub cors: Option<String>,
}

/// An API that the server can serve.
#[derive(Debug, PartialEq, Eq, Structural)]
pub enum Api {
    Web3,
    Net,
    Eth,
    Personal,
    Ethcore,
}

/// The host that an interface setting stands for: `all` and `local` are
/// aliases, anything else is taken as it is.
pub open spec fn host_of(interface: Seq<char>) -> Seq<char> {
    if interface == "all"@ {
        "0.0.0.0"@
    } else if interface == "local"@ {
        "127.0.0.1"@
    } else {
        interface
    }
}

pub fn listen_host(interface: &String) -> (r: String)
    ensures
        r@ == host_of(interface@),
{
    if *interface == "all".to_owned() {
        "0.0.0.0".to_owned()
    } else if *interface == "local".to_owned() {
        "127.0.0.1".to_owned()
    } else {
        interface.clone()
    }
}

/// The API of the given name, if there is one: `web3`, `net`, `eth`,
/// `personal` or `ethcore`, in ASCII.
pub open spec fn api_named(name: Seq<u8>) -> Option<Api> {
    if name == seq![119u8, 101u8, 98u8, 51u8] {
        Some(Api::Web3)
    } else if name == seq![110u8, 101u8, 116u8] {
        Some(Api::Net)
    } else if name == seq![101u8, 116u8, 104u8] {
        Some(Api::Eth)
    } else if name == seq![112u8, 101u8, 114u8, 115u8, 111u8, 110u8, 97u8, 108u8] {
        Some(Api::Personal)
    } else if name == seq![101u8, 116u8, 104u8, 99u8, 111u8, 114u8, 101u8] {
        Some(Api::Ethcore)
    } else {
        None
    }
}

fn bytes_equal(a: &Vec<u8>, b: &[u8]) -> (r: bool)
    ensures
        r == (a@ == b@),
{
    if a.len() != b.len() {
        return false;
    }
    let mut i: usize = 0;
    while i < a.len()
        invariant
            a@.len() == b@.len(),
            i <= a@.len(),
            forall|j: int| 0 <= j < i ==> a@[j] == b@[j],
        decreases a@.len() - i,
    {
        if a[i] != b[i] {
            return false;
        }
        i = i + 1;
    }
    assert(a@ =~= b@);
    true
}

pub fn api_from_name(name: &Vec<u8>) -> (r: Option<Api>)
    ensures
        r == api_named(name@),
{
    let web3: [u8; 4] = [119u8, 101u8, 98u8, 51u8];
    let net: [u8; 3] = [110u8, 101u8, 116u8];
    let eth: [u8; 3] = [101u8, 116u8, 104u8];
    let personal: [u8; 8] = [112u8, 101u8, 114u8, 115u8, 111u8, 110u8, 97u8, 108u8];
    let ethcore: [u8; 7] = [101u8, 116u8, 104u8, 99u8, 111u8, 114u8, 101u8];
    assert(web3@ =~= seq![119u8, 101u8, 98u8, 51u8]);
    assert(net@ =~= seq![110u8, 101u8, 116u8]);
    assert(eth@ =~= seq![101u8, 116u8, 104u8]);
    assert(personal@ =~= seq![112u8, 101u8, 114u8, 115u8, 111u8, 110u8, 97u8, 108u8]);
    assert(ethcore@ =~= seq![101u8, 116u8, 104u8, 99u8, 111u8, 114u8, 101u8]);
    if bytes_equal(name, web3.as_slice()) {
        Some(Api::Web3)
    } else if bytes_equal(name, net.as_slice()) {
        Some(Api::Net)
    } else if bytes_equal(name, eth.as_slice()) {
        Some(Api::Eth)
    } else if bytes_equal(name, personal.as_slice()) {
        Some(Api::Personal)
    } else if bytes_equal(name, ethcore.as_slice()) {
        Some(Api::Ethcore)
    } else {
        None
    }
}

/// The byte `,` that separates API names.
pub const COMMA: u8 = 44;

/// The pieces of `s` between commas, in order; an empty `s` is one empty
/// piece, and a comma at either end makes an empty piece there.
pub open spec fn split_commas(s: Seq<u8>) -> Seq<Seq<u8>>
    decreases s.len(),
{
    if s.len() == 0 {
        seq![Seq::empty()]
    } else {
        let parts = split_commas(s.drop_last());
        if s.last() == COMMA {
            parts.push(Seq::empty())
        } else {
            parts.update(parts.len() - 1, parts.last().push(s.last()))
        }
    }
}

proof fn lemma_split_nonempty(s: Seq<u8>)
    ensures
        split_commas(s).len() >= 1,
    decreases s.len(),
{
    if s.len() > 0 {
        lemma_split_nonempty(s.drop_last());
    }
}

/// Pieces that a comma has ended stay as they are when the text goes on.
proof fn lemma_pieces_stable(b: Seq<u8>, m: nat, n: nat)
    requires
        m <= n <= b.len(),
    ensures
        split_commas(b.subrange(0, m as int)).len() <= split_commas(b.subrange(0, n as int)).len(),
        forall|j: int| 0 <= j < split_commas(b.subrange(0, m as int)).len() - 1
            ==> #[trigger] split_commas(b.subrange(0, n as int))[j] == split_commas(b.subrange(0, m as int))[j],
    decreases n - m,
{
    if m < n {
        lemma_pieces_stable(b, m, (n - 1) as nat);
        lemma_split_nonempty(b.subrange(0, n - 1));
        assert(b.subrange(0, n as int).drop_last() =~= b.subrange(0, n - 1));
    }
}

/// Reads a comma-separated list of API names. Gives the APIs in the order
/// of the list, or the position in the list of the first name that is no
/// API.
pub fn parse_apis(apis: &str) -> (r: Result<Vec<Api>, usize>)
    ensures
        match r {
            Ok(v) => {
                &&& v@.len() == split_commas(apis.spec_bytes()).len()
                &&& forall|j: int| 0 <= j < v@.len()
                    ==> api_named(#[trigger] split_commas(apis.spec_bytes())[j]) == Some(v@[j])
            },
            Err(i) => {
                &&& i < split_commas(apis.spec_bytes()).len()
                &&& api_named(split_commas(apis.spec_bytes())[i as int]) is None
                &&& forall|j: int| 0 <= j < i ==> api_named(#[trigger] split_commas(apis.spec_bytes())[j]) is Some
            },
        },
{
    let bytes = apis.as_bytes();
    let ghost b = bytes@;
    let mut out: Vec<Api> = Vec::new();
    let mut cur: Vec<u8> = Vec::new();
    let mut i: usize = 0;
    while i < bytes.len()
        invariant
            b == apis.spec_bytes(),
            bytes@ == b,
            i <= b.len(),
            split_commas(b.subrange(0, i as int)).len() == out@.len() + 1,
            split_commas(b.subrange(0, i as int)).last() == cur@,
            forall|j: int| 0 <= j < out@.len()
                ==> api_named(#[trigger] split_commas(b.subrange(0, i as int))[j]) == Some(out@[j]),
        decreases b.len() - i,
    {
        let ghost before = split_commas(b.subrange(0, i as int));
        assert(b.subrange(0, i + 1).drop_last() =~= b.subrange(0, i as int));
        if bytes[i] == COMMA {
            match api_from_name(&cur) {
                Some(api) => out.push(api),
                None => {
                    proof {
                        let full = split_commas(b.subrange(0, b.len() as int));
                        let next = split_commas(b.subrange(0, i + 1));
                        assert(next == before.push(Seq::empty()));
                        lemma_pieces_stable(b, (i + 1) as nat, b.len());
                        assert(b.subrange(0, b.len() as int) =~= b);
                        assert(full[out@.len() as int] == cur@);
                        assert forall|j: int| 0 <= j < out@.len() implies api_named(
                            #[trigger] split_commas(apis.spec_bytes())[j]) is Some by {
                            assert(full[j] == before[j]);
                        }
                    }
                    return Err(out.len());
                },
            }
            cur = Vec::new();
        } else {
            cur.push(bytes[i]);
        }
        proof {
            lemma_split_nonempty(b.subrange(0, i as int));
        }
        i = i + 1;
        assert(split_commas(b.subrange(0, i as int)).last() =~= cur@);
    }
    assert(b.subrange(0, i as int) =~= b);
    match api_from_name(&cur) {
        Some(api) => {
            out.push(api);
            Ok(out)
        },
        None => Err(out.len()),
    }
}

} // verus!
