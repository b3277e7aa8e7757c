//! The Content rewrite pipeline: an ordered sequence of cumulative text
//! rewrite passes that turns a debug-printed full-transaction dump into
//! syntactically valid JSON text. The passes are, in order: wrapper-tag
//! erasure over a fixed catalog, optional-value flattening, field-name
//! quoting over a fixed catalog, contract-creation marker mapping, hex
//! literal quoting, parenthesis cleanup, residual-tag removal, digit-group
//! separator removal, trailing-comma normalization, and the cross-line
//! trailing-comma fix.

use vstd::prelude::*;
use crate::chars::{copy_range, to_chars};
use crate::rewrite::{
    replace_spec, ews_spec, qf_spec, hx_spec, cp_spec, rt_spec, rtnl_spec, us_spec, replace_all,
    erase_name_brace, quote_field, hex_quote, colon_paren, residual_tag, residual_tag_line,
    strip_separators,
};
use crate::normalize::{p9_spec, p10_spec, normalize_commas, cross_line_fix, views_of};

verus! {

/// The fixed catalog of wrapper tokens: type and variant names that tag
/// nested structure in the dump but carry no data.
pub open spec fn wrapper_catalog() -> Seq<Seq<char>> {
    seq![
        "TxpoolContent"@,
        "AnyRpcTransaction"@,
        "WithOtherFields"@,
        "Transaction"@,
        "Recovered"@,
        "Ethereum"@,
        "Eip1559"@,
        "Signed"@,
        "TxEip1559"@,
        "Call"@,
        "OnceLock"@,
        "PrimitiveSignature"@,
        "AccessList"@,
        "OtherFields"@,
        "AnyRpc"@,
        "Tx"@,
        "Legacy"@,
        "TxLegacy"@,
        "Eip2930"@,
        "TxEip2930"@,
        "Eip4844"@,
        "TxEip4844"@,
        "DepositReceipt"@,
        "DepositTransaction"@,
        "OpDepositReceipt"@,
        "SequentialReceipt"@,
        "Create"@,
        "AccessListItem"@,
        "TxEip7702"@,
        "Eip7702"@,
        "Authorization"@,
    ]
}

/// The fixed catalog of known field identifiers.
pub open spec fn field_catalog() -> Seq<Seq<char>> {
    seq![
        "pending"@,
        "queued"@,
        "inner"@,
        "signer"@,
        "to"@,
        "value"@,
        "input"@,
        "signature"@,
        "y_parity"@,
        "r"@,
        "s"@,
        "hash"@,
        "block_hash"@,
        "block_number"@,
        "transaction_index"@,
        "effective_gas_price"@,
        "other"@,
        "chain_id"@,
        "nonce"@,
        "gas_limit"@,
        "max_fee_per_gas"@,
        "max_priority_fee_per_gas"@,
        "tx"@,
        "access_list"@,
        "gas"@,
        "gas_price"@,
        "from"@,
        "data"@,
        "type"@,
        "v"@,
        "address"@,
        "storage_keys"@,
        "blob_versioned_hashes"@,
        "max_fee_per_blob_gas"@,
        "authorization_list"@,
    ]
}

/// Builds the wrapper catalog as character vectors.
fn wrapper_names() -> (r: Vec<Vec<char>>)
    ensures
        views_of(r@) == wrapper_catalog(),
{
    let mut v: Vec<Vec<char>> = Vec::new();
    v.push(to_chars("TxpoolContent"));
    v.push(to_chars("AnyRpcTransaction"));
    v.push(to_chars("WithOtherFields"));
    v.push(to_chars("Transaction"));
    v.push(to_chars("Recovered"));
    v.push(to_chars("Ethereum"));
    v.push(to_chars("Eip1559"));
    v.push(to_chars("Signed"));
    v.push(to_chars("TxEip1559"));
    v.push(to_chars("Call"));
    v.push(to_chars("OnceLock"));
    v.push(to_chars("PrimitiveSignature"));
    v.push(to_chars("AccessList"));
    v.push(to_chars("OtherFields"));
    v.push(to_chars("AnyRpc"));
    v.push(to_chars("Tx"));
    v.push(to_chars("Legacy"));
    v.push(to_chars("TxLegacy"));
    v.push(to_chars("Eip2930"));
    v.push(to_chars("TxEip2930"));
    v.push(to_chars("Eip4844"));
    v.push(to_chars("TxEip4844"));
    v.push(to_chars("DepositReceipt"));
    v.push(to_chars("DepositTransaction"));
    v.push(to_chars("OpDepositReceipt"));
    v.push(to_chars("SequentialReceipt"));
    v.push(to_chars("Create"));
    v.push(to_chars("AccessListItem"));
    v.push(to_chars("TxEip7702"));
    v.push(to_chars("Eip7702"));
    v.push(to_chars("Authorization"));
    proof {
        assert(views_of(v@) =~= wrapper_catalog());
    }
    v
}

/// Builds the field catalog as character vectors.
fn field_names() -> (r: Vec<Vec<char>>)
    ensures
        views_of(r@) == field_catalog(),
{
    let mut v: Vec<Vec<char>> = Vec::new();
    v.push(to_chars("pending"));
    v.push(to_chars("queued"));
    v.push(to_chars("inner"));
    v.push(to_chars("signer"));
    v.push(to_chars("to"));
    v.push(to_chars("value"));
    v.push(to_chars("input"));
    v.push(to_chars("signature"));
    v.push(to_chars("y_parity"));
    v.push(to_chars("r"));
    v.push(to_chars("s"));
    v.push(to_chars("hash"));
    v.push(to_chars("block_hash"));
    v.push(to_chars("block_number"));
    v.push(to_chars("transaction_index"));
    v.push(to_chars("effective_gas_price"));
    v.push(to_chars("other"));
    v.push(to_chars("chain_id"));
    v.push(to_chars("nonce"));
    v.push(to_chars("gas_limit"));
    v.push(to_chars("max_fee_per_gas"));
    v.push(to_chars("max_priority_fee_per_gas"));
    v.push(to_chars("tx"));
    v.push(to_chars("access_list"));
    v.push(to_chars("gas"));
    v.push(to_chars("gas_price"));
    v.push(to_chars("from"));
    v.push(to_chars("data"));
    v.push(to_chars("type"));
    v.push(to_chars("v"));
    v.push(to_chars("address"));
    v.push(to_chars("storage_keys"));
    v.push(to_chars("blob_versioned_hashes"));
    v.push(to_chars("max_fee_per_blob_gas"));
    v.push(to_chars("authorization_list"));
    proof {
        assert(views_of(v@) =~= field_catalog());
    }
    v
}

/// Erases one wrapper token: `name {` and `name(` lose the name, as does
/// `name` followed by any whitespace and `{`.
pub open spec fn erase_wrapper(s: Seq<char>, name: Seq<char>) -> Seq<char> {
    ews_spec(
        replace_spec(replace_spec(s, name + seq![' ', '{'], seq!['{']), name + seq!['('], seq!['(']),
        name,
    )
}

/// Pass 1 from catalog entry `i` on: erase each wrapper token in order.
pub open spec fn erase_wrappers_from(s: Seq<char>, names: Seq<Seq<char>>, i: int) -> Seq<char>
    decreases names.len() - i,
{
    if !(0 <= i < names.len()) {
        s
    } else {
        erase_wrappers_from(erase_wrapper(s, names[i]), names, i + 1)
    }
}

/// Pass 3 from catalog entry `i` on: quote each known field name in order.
pub open spec fn quote_fields_from(s: Seq<char>, names: Seq<Seq<char>>, i: int) -> Seq<char>
    decreases names.len() - i,
{
    if !(0 <= i < names.len()) {
        s
    } else {
        quote_fields_from(qf_spec(s, names[i]), names, i + 1)
    }
}

/// Pass 2: drop `Some(` and map `None` to `null`.
pub open spec fn flatten_optionals(s: Seq<char>) -> Seq<char> {
    replace_spec(replace_spec(s, "Some("@, Seq::empty()), "None"@, "null"@)
}

/// Pass 4: map the contract-creation marker `Create` before a comma or line
/// break to `null`.
pub open spec fn map_create(s: Seq<char>) -> Seq<char> {
    replace_spec(replace_spec(s, "Create,"@, "null,"@), "Create\n"@, "null\n"@)
}

/// Pass 6: a `(` after a colon becomes a space, a `)` before a comma is
/// dropped, and every remaining parenthesis is deleted.
pub open spec fn clean_parens(s: Seq<char>) -> Seq<char> {
    replace_spec(
        replace_spec(replace_spec(cp_spec(s), "),"@, ","@), ")"@, Seq::empty()),
        "("@,
        Seq::empty(),
    )
}

/// Pass 7: residual capitalized tags before `{`, on the same or an earlier
/// line, are erased.
pub open spec fn drop_residual_tags(s: Seq<char>) -> Seq<char> {
    rtnl_spec(rt_spec(s))
}

/// The fully rewritten text: all ten passes in order.
pub open spec fn content_cleaned(s: Seq<char>) -> Seq<char> {
    p10_spec(
        p9_spec(
            us_spec(
                drop_residual_tags(
                    clean_parens(
                        hx_spec(
                            map_create(
                                quote_fields_from(
                                    flatten_optionals(
                                        erase_wrappers_from(s, wrapper_catalog(), 0),
                                    ),
                                    field_catalog(),
                                    0,
                                ),
                            ),
                        ),
                    ),
                ),
            ),
        ),
    )
}

/// Applies pass 1: erases every cataloged wrapper token.
fn erase_all_wrappers(s: Vec<char>) -> (r: Vec<char>)
    ensures
        r@ == erase_wrappers_from(s@, wrapper_catalog(), 0),
{
    let names = wrapper_names();
    let n: usize = names.len();
    let mut cur = s;
    let ghost s0 = cur@;
    let mut i: usize = 0;
    while i < n
        invariant
            n == names@.len(),
            views_of(names@) == wrapper_catalog(),
            0 <= i <= n,
            erase_wrappers_from(s0, wrapper_catalog(), 0) == erase_wrappers_from(
                cur@,
                wrapper_catalog(),
                i as int,
            ),
        decreases n - i,
    {
        let name = &names[i];
        assert(name@ == wrapper_catalog()[i as int]);
        let mut pat1 = copy_range(name, 0, name.len());
        pat1.push(' ');
        pat1.push('{');
        proof {
            assert(name@.subrange(0, name@.len() as int) =~= name@);
            assert(pat1@ =~= name@ + seq![' ', '{']);
        }
        let mut rep1: Vec<char> = Vec::new();
        rep1.push('{');
        assert(rep1@ =~= seq!['{']);
        let t1 = replace_all(&cur, &pat1, &rep1);
        let mut pat2 = copy_range(name, 0, name.len());
        pat2.push('(');
        proof {
            assert(name@.subrange(0, name@.len() as int) =~= name@);
            assert(pat2@ =~= name@ + seq!['(']);
        }
        let mut rep2: Vec<char> = Vec::new();
        rep2.push('(');
        assert(rep2@ =~= seq!['(']);
        let t2 = replace_all(&t1, &pat2, &rep2);
        let t3 = erase_name_brace(&t2, name);
        assert(t3@ == erase_wrapper(cur@, wrapper_catalog()[i as int]));
        cur = t3;
        i = i + 1;
    }
    cur
}

/// Applies pass 3: quotes every cataloged field name.
fn quote_all_fields(s: Vec<char>) -> (r: Vec<char>)
    ensures
        r@ == quote_fields_from(s@, field_catalog(), 0),
{
    let names = field_names();
    let n: usize = names.len();
    let mut cur = s;
    let ghost s0 = cur@;
    let mut i: usize = 0;
    while i < n
        invariant
            n == names@.len(),
            views_of(names@) == field_catalog(),
            0 <= i <= n,
            quote_fields_from(s0, field_catalog(), 0) == quote_fields_from(
                cur@,
                field_catalog(),
                i as int,
            ),
        decreases n - i,
    {
        let name = &names[i];
        assert(name@ == field_catalog()[i as int]);
        let t = quote_field(&cur, name);
        cur = t;
        i = i + 1;
    }
    cur
}

/// Rewrites a Content dump into JSON text: all ten passes in order.
pub fn content_rewrite(input: &Vec<char>) -> (r: Vec<char>)
    ensures
        r@ == content_cleaned(input@),
{
    let t0 = copy_range(input, 0, input.len());
    proof {
        assert(input@.subrange(0, input@.len() as int) =~= input@);
    }
    let t1 = erase_all_wrappers(t0);
    let some_pat = to_chars("Some(");
    let empty_rep: Vec<char> = Vec::new();
    let t2a = replace_all(&t1, &some_pat, &empty_rep);
    let none_pat = to_chars("None");
    let null_rep = to_chars("null");
    let t2 = replace_all(&t2a, &none_pat, &null_rep);
    assert(t2@ == flatten_optionals(t1@));
    let t3 = quote_all_fields(t2);
    let cc_pat = to_chars("Create,");
    let nc_rep = to_chars("null,");
    let t4a = replace_all(&t3, &cc_pat, &nc_rep);
    let cn_pat = to_chars("Create\n");
    let nn_rep = to_chars("null\n");
    let t4 = replace_all(&t4a, &cn_pat, &nn_rep);
    assert(t4@ == map_create(t3@));
    let t5 = hex_quote(&t4);
    let t6a = colon_paren(&t5);
    let pc_pat = to_chars("),");
    let c_rep = to_chars(",");
    let t6b = replace_all(&t6a, &pc_pat, &c_rep);
    let close_pat = to_chars(")");
    let t6c = replace_all(&t6b, &close_pat, &empty_rep);
    let open_pat = to_chars("(");
    let t6 = replace_all(&t6c, &open_pat, &empty_rep);
    assert(t6@ == clean_parens(t5@));
    let t7a = residual_tag(&t6);
    let t7 = residual_tag_line(&t7a);
    assert(t7@ == drop_residual_tags(t6@));
    let t8 = strip_separators(&t7);
    let t9 = normalize_commas(&t8);
    let t10 = cross_line_fix(&t9);
    t10
}

} // verus!
