//! Exchange client core: construction of the authenticated requests and
//! evaluation of the responses for the three remote operations — account
//! information, ticker price, market order. The HTTP transfer itself lives
//! outside the library; these functions pin down every byte sent and the
//! outcome for everything that can come back.

use vstd::prelude::*;
use crate::decimal::{Price, is_price_lit, price_units, parse_price, dec_repr, price_repr, fmt_u64, fmt_price, push_bytes};
use crate::signer::{signed_query, canonical_query, pairs_view, build_signed_query, build_query,
    percent_safe, percent_safe_byte, pair_percent_safe, lemma_digits_percent_safe};

verus! {

/// Why a remote operation failed. Every variant is non-fatal to a trading
/// cycle except `InvalidKeyMaterial`, which refuses to start the process.
#[derive(Debug, PartialEq, Eq)]
pub enum ClientError {
    /// The request never reached the exchange, or no response arrived.
    Transport,
    /// The exchange answered with a non-success status; kept for diagnostics.
    Exchange { status: u16, body: Vec<u8> },
    /// The response body did not have the documented shape.
    Decode,
    /// A numeric field of the response was not a decimal price literal.
    Parse,
    /// Credentials that cannot initialize the signer.
    InvalidKeyMaterial,
}

/// API key and secret, injected at construction; never process-wide state.
pub struct Credentials {
    pub api_key: Vec<u8>,
    pub api_secret: Vec<u8>,
}

impl Credentials {
    /// Usable key material: the signer and the key header need substance.
    pub open spec fn wf(self) -> bool {
        self.api_key@.len() > 0 && self.api_secret@.len() > 0
    }

    /// Accepts exactly the credentials that can initialize the signer;
    /// anything else is the one fatal-at-startup error.
    pub fn new(api_key: Vec<u8>, api_secret: Vec<u8>) -> (r: Result<Credentials, ClientError>)
        ensures
            (r is Ok) <==> (api_key@.len() > 0 && api_secret@.len() > 0),
            r matches Ok(c) ==> c.wf() && c.api_key@ == api_key@ && c.api_secret@ == api_secret@,
            r matches Err(e) ==> e is InvalidKeyMaterial,
    {
        if api_key.len() == 0 || api_secret.len() == 0 {
            Err(ClientError::InvalidKeyMaterial)
        } else {
            Ok(Credentials { api_key, api_secret })
        }
    }
}

/// An order's side, the only two words the order endpoint accepts.
#[derive(Clone, Copy, Debug, PartialEq, Eq, Structural)]
pub enum Side {
    Buy,
    Sell,
}

impl Side {
    /// `BUY` or `SELL`, as the order endpoint spells it.
    pub open spec fn spec_bytes(self) -> Seq<u8> {
        match self {
            Side::Buy => seq![66u8, 85u8, 89u8],
            Side::Sell => seq![83u8, 69u8, 76u8, 76u8],
        }
    }

    pub fn to_bytes(&self) -> (r: Vec<u8>)
        ensures
            r@ == self.spec_bytes(),
    {
        let mut v: Vec<u8> = Vec::new();
        match self {
            Side::Buy => {
                v.push(66);
                v.push(85);
                v.push(89);
            },
            Side::Sell => {
                v.push(83);
                v.push(69);
                v.push(76);
                v.push(76);
            },
        }
        proof {
            assert(v@ =~= self.spec_bytes());
        }
        v
    }
}

/// The bytes of `symbol`.
pub open spec fn key_symbol() -> Seq<u8> {
    seq![115u8, 121u8, 109u8, 98u8, 111u8, 108u8]
}

/// The bytes of `side`.
pub open spec fn key_side() -> Seq<u8> {
    seq![115u8, 105u8, 100u8, 101u8]
}

/// The bytes of `type`.
pub open spec fn key_type() -> Seq<u8> {
    seq![116u8, 121u8, 112u8, 101u8]
}

/// The bytes of `MARKET`.
pub open spec fn val_market() -> Seq<u8> {
    seq![77u8, 65u8, 82u8, 75u8, 69u8, 84u8]
}

/// The bytes of `quantity`.
pub open spec fn key_quantity() -> Seq<u8> {
    seq![113u8, 117u8, 97u8, 110u8, 116u8, 105u8, 116u8, 121u8]
}

/// The bytes of `timestamp`.
pub open spec fn key_timestamp() -> Seq<u8> {
    seq![116u8, 105u8, 109u8, 101u8, 115u8, 116u8, 97u8, 109u8, 112u8]
}

/// The bytes of `USDT`.
pub open spec fn usdt_suffix() -> Seq<u8> {
    seq![85u8, 83u8, 68u8, 84u8]
}

fn key_symbol_bytes() -> (r: Vec<u8>)
    ensures
        r@ == key_symbol(),
{
    let mut v: Vec<u8> = Vec::new();
    v.push(115);
    v.push(121);
    v.push(109);
    v.push(98);
    v.push(111);
    v.push(108);
    proof {
        assert(v@ =~= key_symbol());
    }
    v
}

fn key_side_bytes() -> (r: Vec<u8>)
    ensures
        r@ == key_side(),
{
    let mut v: Vec<u8> = Vec::new();
    v.push(115);
    v.push(105);
    v.push(100);
    v.push(101);
    proof {
        assert(v@ =~= key_side());
    }
    v
}

fn key_type_bytes() -> (r: Vec<u8>)
    ensures
        r@ == key_type(),
{
    let mut v: Vec<u8> = Vec::new();
    v.push(116);
    v.push(121);
    v.push(112);
    v.push(101);
    proof {
        assert(v@ =~= key_type());
    }
    v
}

fn val_market_bytes() -> (r: Vec<u8>)
    ensures
        r@ == val_market(),
{
    let mut v: Vec<u8> = Vec::new();
    v.push(77);
    v.push(65);
    v.push(82);
    v.push(75);
    v.push(69);
    v.push(84);
    proof {
        assert(v@ =~= val_market());
    }
    v
}

fn key_quantity_bytes() -> (r: Vec<u8>)
    ensures
        r@ == key_quantity(),
{
    let mut v: Vec<u8> = Vec::new();
    v.push(113);
    v.push(117);
    v.push(97);
    v.push(110);
    v.push(116);
    v.push(105);
    v.push(116);
    v.push(121);
    proof {
        assert(v@ =~= key_quantity());
    }
    v
}

fn key_timestamp_bytes() -> (r: Vec<u8>)
    ensures
        r@ == key_timestamp(),
{
    let mut v: Vec<u8> = Vec::new();
    v.push(116);
    v.push(105);
    v.push(109);
    v.push(101);
    v.push(115);
    v.push(116);
    v.push(97);
    v.push(109);
    v.push(112);
    proof {
        assert(v@ =~= key_timestamp());
    }
    v
}

/// The market symbol an instrument trades under: its base symbol with the
/// `USDT` quote suffix.
pub fn market_symbol(base: &Vec<u8>) -> (r: Vec<u8>)
    ensures
        r@ == base@ + usdt_suffix(),
{
    let mut v: Vec<u8> = Vec::new();
    push_bytes(&mut v, base);
    v.push(85);
    v.push(83);
    v.push(68);
    v.push(84);
    proof {
        assert(v@ =~= base@ + usdt_suffix());
    }
    v
}

/// Parameters of the authenticated account-information request: the
/// millisecond timestamp, captured immediately before signing.
pub open spec fn account_params(ts: u64) -> Seq<(Seq<u8>, Seq<u8>)> {
    seq![(key_timestamp(), dec_repr(ts as nat))]
}

/// The signed query string of the account-information request.
pub fn build_account_query(ts: u64, creds: &Credentials) -> (r: Vec<u8>)
    requires
        creds.wf(),
    ensures
        r@ == signed_query(account_params(ts), creds.api_secret@),
{
    let mut params: Vec<(Vec<u8>, Vec<u8>)> = Vec::new();
    params.push((key_timestamp_bytes(), fmt_u64(ts)));
    proof {
        assert(pairs_view(params@) =~= account_params(ts));
        crate::decimal::lemma_dec_repr(ts as nat);
        lemma_digits_percent_safe(dec_repr(ts as nat));
        assert(percent_safe(key_timestamp()));
        assert forall|i: int| 0 <= i < account_params(ts).len() implies pair_percent_safe(
            #[trigger] account_params(ts)[i],
        ) by {
            assert(account_params(ts)[0] == (key_timestamp(), dec_repr(ts as nat)));
        }
    }
    build_signed_query(&params, &creds.api_secret)
}

/// The query string of the public ticker request for a market symbol.
pub open spec fn ticker_params(symbol: Seq<u8>) -> Seq<(Seq<u8>, Seq<u8>)> {
    seq![(key_symbol(), symbol)]
}

pub fn build_ticker_query(symbol: &Vec<u8>) -> (r: Vec<u8>)
    ensures
        r@ == canonical_query(ticker_params(symbol@)),
{
    let mut sym: Vec<u8> = Vec::new();
    push_bytes(&mut sym, symbol);
    let mut params: Vec<(Vec<u8>, Vec<u8>)> = Vec::new();
    params.push((key_symbol_bytes(), sym));
    let r = build_query(&params);
    proof {
        assert(pairs_view(params@) =~= ticker_params(symbol@));
    }
    r
}

/// Parameters of a market order, in the one fixed documented order the
/// request is signed and sent with.
pub open spec fn order_params(symbol: Seq<u8>, side: Side, qty: Price, ts: u64) -> Seq<
    (Seq<u8>, Seq<u8>),
> {
    seq![
        (key_symbol(), symbol),
        (key_side(), side.spec_bytes()),
        (key_type(), val_market()),
        (key_quantity(), price_repr(qty.units as nat)),
        (key_timestamp(), dec_repr(ts as nat)),
    ]
}

/// The signed form body of a market-order request. A fresh `ts` must be
/// captured by the caller immediately before this call: the body is signed
/// over it and must never be reused.
pub fn build_order_body(symbol: &Vec<u8>, side: Side, qty: Price, ts: u64, creds: &Credentials) -> (r:
    Vec<u8>)
    requires
        creds.wf(),
        percent_safe(symbol@),
    ensures
        r@ == signed_query(order_params(symbol@, side, qty, ts), creds.api_secret@),
{
    let mut sym: Vec<u8> = Vec::new();
    push_bytes(&mut sym, symbol);
    let mut params: Vec<(Vec<u8>, Vec<u8>)> = Vec::new();
    params.push((key_symbol_bytes(), sym));
    params.push((key_side_bytes(), side.to_bytes()));
    params.push((key_type_bytes(), val_market_bytes()));
    params.push((key_quantity_bytes(), fmt_price(qty)));
    params.push((key_timestamp_bytes(), fmt_u64(ts)));
    proof {
        let ps = order_params(symbol@, side, qty, ts);
        assert(pairs_view(params@) =~= ps);
        crate::decimal::lemma_dec_repr(ts as nat);
        lemma_digits_percent_safe(dec_repr(ts as nat));
        crate::decimal::lemma_price_repr_bytes(qty.units as nat);
        assert forall|i: int|
            0 <= i < price_repr(qty.units as nat).len() implies percent_safe_byte(
            #[trigger] price_repr(qty.units as nat)[i],
        ) by {}
        assert(percent_safe(key_symbol()));
        assert(percent_safe(key_side()));
        assert(percent_safe(key_type()));
        assert(percent_safe(val_market()));
        assert(percent_safe(key_quantity()));
        assert(percent_safe(key_timestamp()));
        assert(percent_safe(side.spec_bytes()));
        assert forall|i: int| 0 <= i < ps.len() implies pair_percent_safe(#[trigger] ps[i]) by {
            assert(ps[0] == (key_symbol(), symbol@));
            assert(ps[1] == (key_side(), side.spec_bytes()));
            assert(ps[2] == (key_type(), val_market()));
            assert(ps[3] == (key_quantity(), price_repr(qty.units as nat)));
            assert(ps[4] == (key_timestamp(), dec_repr(ts as nat)));
        }
    }
    build_signed_query(&params, &creds.api_secret)
}

/// The success band of HTTP statuses.
pub open spec fn is_success_status(status: u16) -> bool {
    200 <= status < 300
}

pub fn status_is_success(status: u16) -> (r: bool)
    ensures
        r == is_success_status(status),
{
    200 <= status && status < 300
}

/// What became of one order submission that got an answer or none.
#[derive(Debug, PartialEq, Eq)]
pub enum OrderOutcome {
    /// The exchange accepted the order.
    Placed,
    /// The exchange refused it; status and body are kept for diagnostics.
    Rejected { status: u16, body: Vec<u8> },
    /// The request never got an answer at all.
    Unsent,
}

/// Evaluates an order response: success exactly on a 2xx status, and a
/// rejection keeps the status and the body text, nothing is thrown away.
pub fn evaluate_order_response(status: u16, body: Vec<u8>) -> (r: OrderOutcome)
    ensures
        is_success_status(status) ==> r == OrderOutcome::Placed,
        !is_success_status(status) ==> r == (OrderOutcome::Rejected { status, body }),
{
    if status_is_success(status) {
        OrderOutcome::Placed
    } else {
        OrderOutcome::Rejected { status, body }
    }
}

/// Evaluates a ticker response from its status and, when the body decoded to
/// the documented shape, its string price field.
pub fn evaluate_price_response(status: u16, body: Vec<u8>, price_field: Option<Vec<u8>>) -> (r:
    Result<Price, ClientError>)
    ensures
        !is_success_status(status) ==> r == Err::<Price, ClientError>(
            ClientError::Exchange { status, body },
        ),
        is_success_status(status) && price_field is None ==> r == Err::<Price, ClientError>(
            ClientError::Decode,
        ),
        is_success_status(status) ==> (price_field matches Some(f) ==> (!is_price_lit(f@) ==> r
            == Err::<Price, ClientError>(ClientError::Parse))),
        is_success_status(status) ==> (price_field matches Some(f) ==> (is_price_lit(f@) ==> (
        r matches Ok(p) && p.units == price_units(f@)))),
{
    if !status_is_success(status) {
        return Err(ClientError::Exchange { status, body });
    }
    match price_field {
        None => Err(ClientError::Decode),
        Some(f) => match parse_price(&f) {
            None => Err(ClientError::Parse),
            Some(p) => Ok(p),
        },
    }
}

/// One asset line of the account response, amounts still byte literals.
pub struct BalanceItem {
    pub asset: Vec<u8>,
    pub free: Vec<u8>,
    pub locked: Vec<u8>,
}

/// Available and reserved amounts of one asset.
#[derive(Clone, Copy, Debug, PartialEq, Eq, Structural)]
pub struct Balance {
    pub free: Price,
    pub locked: Price,
}

/// One decoded asset entry of a snapshot.
pub struct BalanceEntry {
    pub asset: Vec<u8>,
    pub balance: Balance,
}

/// An account snapshot: the ordered asset entries one balance query returned.
pub struct AccountInfo {
    pub balances: Vec<BalanceEntry>,
}

/// Both amounts of one line are decimal price literals.
pub open spec fn item_decodable(item: BalanceItem) -> bool {
    is_price_lit(item.free@) && is_price_lit(item.locked@)
}

/// Every amount of every line is a decimal price literal.
pub open spec fn balances_decodable(items: Seq<BalanceItem>) -> bool {
    forall|i: int| 0 <= i < items.len() ==> #[trigger] item_decodable(items[i])
}

/// Decodes the asset lines of an account response into a snapshot: assets
/// and order are kept, both amounts of every line are parsed exactly.
pub fn decode_account_info(items: Vec<BalanceItem>) -> (r: Result<AccountInfo, ClientError>)
    ensures
        (r is Ok) <==> balances_decodable(items@),
        r matches Ok(a) ==> a.balances@.len() == items@.len() && forall|i: int|
            0 <= i < items@.len() ==> (#[trigger] a.balances@[i]).asset@ == items@[i].asset@
                && a.balances@[i].balance.free.units == price_units(items@[i].free@)
                && a.balances@[i].balance.locked.units == price_units(items@[i].locked@),
        r matches Err(e) ==> e is Decode,
{
    let mut out: Vec<BalanceEntry> = Vec::new();
    let mut i: usize = 0;
    while i < items.len()
        invariant
            i <= items@.len(),
            out@.len() == i,
            forall|j: int| 0 <= j < i ==> #[trigger] item_decodable(items@[j]),
            forall|j: int|
                0 <= j < i ==> (#[trigger] out@[j]).asset@ == items@[j].asset@
                    && out@[j].balance.free.units == price_units(items@[j].free@)
                    && out@[j].balance.locked.units == price_units(items@[j].locked@),
        decreases items@.len() - i,
    {
        let item = &items[i];
        let free = match parse_price(&item.free) {
            Some(p) => p,
            None => {
                proof {
                    assert(!item_decodable(items@[i as int]));
                }
                return Err(ClientError::Decode);
            },
        };
        let locked = match parse_price(&item.locked) {
            Some(p) => p,
            None => {
                proof {
                    assert(!item_decodable(items@[i as int]));
                }
                return Err(ClientError::Decode);
            },
        };
        proof {
            assert(item_decodable(items@[i as int]));
        }
        let mut asset: Vec<u8> = Vec::new();
        push_bytes(&mut asset, &item.asset);
        out.push(BalanceEntry { asset, balance: Balance { free, locked } });
        i = i + 1;
    }
    Ok(AccountInfo { balances: out })
}

/// Evaluates an account response from its status and, when the body decoded
/// to the documented shape, its asset lines.
pub fn evaluate_account_response(
    status: u16,
    body: Vec<u8>,
    items: Option<Vec<BalanceItem>>,
) -> (r: Result<AccountInfo, ClientError>)
    ensures
        !is_success_status(status) ==> r == Err::<AccountInfo, ClientError>(
            ClientError::Exchange { status, body },
        ),
        is_success_status(status) && items is None ==> r == Err::<AccountInfo, ClientError>(
            ClientError::Decode,
        ),
        is_success_status(status) ==> (items matches Some(it) ==> ((r is Ok)
            <==> balances_decodable(it@))),
        is_success_status(status) ==> (items matches Some(it) ==> (r matches Ok(a) ==> (a.balances@.len()
            == it@.len() && forall|i: int|
            0 <= i < it@.len() ==> (#[trigger] a.balances@[i]).asset@ == it@[i].asset@
                && a.balances@[i].balance.free.units == price_units(it@[i].free@)
                && a.balances@[i].balance.locked.units == price_units(it@[i].locked@)))),
        r matches Err(e) ==> e is Decode || e matches ClientError::Exchange { .. },
{
    if !status_is_success(status) {
        return Err(ClientError::Exchange { status, body });
    }
    match items {
        None => Err(ClientError::Decode),
        Some(it) => decode_account_info(it),
    }
}

} // verus!
