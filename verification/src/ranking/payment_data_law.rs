//! What a Payment writes into the data of a customer.
use vstd::prelude::*;
use vstd::utf8::encode_utf8;

use crate::fields::{all_free_of, free_of, joined, law_split_joined, split_on};
use crate::ranking::payment::{CustomerCredit, PayerModel, credit_prefix, data_after, leading_fifty};
use crate::text::decimal;
use crate::time::fixed_digits;
use crate::workload::{PaymentInput, RoutedTransaction};

verus! {

proof fn lemma_decimal_free(n: nat)
    ensures
        free_of(decimal(n), ' '),
    decreases n,
{
    if n >= 10 {
        lemma_decimal_free(n / 10);
    }
}

proof fn lemma_digits_free(n: nat, width: nat)
    ensures
        free_of(fixed_digits(n, width), ' '),
        fixed_digits(n, width).len() == width,
    decreases width,
{
    if width > 0 {
        lemma_digits_free(n / 10, (width - 1) as nat);
    }
}

/// The amount of a Payment in words: its dollars, a point and two digits of cents.
pub open spec fn dollars_text(cents: int) -> Seq<char> {
    decimal((cents / 100) as nat) + seq!['.'] + fixed_digits((cents % 100) as nat, 2)
}

/// Law: the data of a customer with good credit stays. That of one with bad credit begins
/// with six fields, each closed by a space, and goes on with what it was, up to fifty
/// bytes. The fields are the customer, its district and its warehouse, the district and
/// the warehouse that were paid, and the amount.
pub proof fn law_bad_credit_data_names_the_payment(
    route: RoutedTransaction,
    input: PaymentInput,
    customer: PayerModel,
)
    requires
        customer.id >= 0,
    ensures
        ({
            let after = data_after(
                route.home_warehouse,
                route.home_district,
                input.customer_warehouse,
                input.customer_district,
                input.amount_cents,
                customer,
            );
            let fields = seq![
                decimal(customer.id as nat),
                decimal(input.customer_district as nat),
                decimal(input.customer_warehouse as nat),
                decimal(route.home_district as nat),
                decimal(route.home_warehouse as nat),
                dollars_text(input.amount_cents as int),
            ];
            &&& customer.credit == CustomerCredit::Good ==> after == customer.data
            &&& customer.credit == CustomerCredit::Bad ==> exists|text: Seq<char>|
                {
                    let whole = #[trigger] encode_utf8(text) + customer.data;
                    &&& split_on(text, ' ') == fields.push(Seq::<char>::empty())
                    &&& after.len() == if whole.len() < 50 {
                        whole.len()
                    } else {
                        50
                    }
                    &&& forall|i: int| 0 <= i < after.len() ==> #[trigger] after[i] == whole[i]
                }
        }),
{
    let after = data_after(
        route.home_warehouse,
        route.home_district,
        input.customer_warehouse,
        input.customer_district,
        input.amount_cents,
        customer,
    );
    let a = decimal(customer.id as nat);
    let b = decimal(input.customer_district as nat);
    let c = decimal(input.customer_warehouse as nat);
    let d = decimal(route.home_district as nat);
    let e = decimal(route.home_warehouse as nat);
    let f = dollars_text(input.amount_cents as int);
    let parts = seq![a, b, c, d, e, f, Seq::<char>::empty()];
    lemma_decimal_free(customer.id as nat);
    lemma_decimal_free(input.customer_district as nat);
    lemma_decimal_free(input.customer_warehouse as nat);
    lemma_decimal_free(route.home_district as nat);
    lemma_decimal_free(route.home_warehouse as nat);
    lemma_decimal_free((input.amount_cents / 100) as nat);
    lemma_digits_free((input.amount_cents % 100) as nat, 2);
    assert(free_of(f, ' '));
    assert(all_free_of(parts, ' '));
    law_split_joined(parts, ' ');
    let text = credit_prefix(
        customer.id,
        input.customer_district,
        input.customer_warehouse,
        route.home_district,
        route.home_warehouse,
        input.amount_cents,
    );
    lemma_joined_parts(a, b, c, d, e, f);
    reveal_strlit(" ");
    reveal_strlit(".");
    assert(" "@ =~= seq![' ']);
    assert("."@ =~= seq!['.']);
    assert(text =~= joined(parts, ' '));
    assert(parts =~= seq![a, b, c, d, e, f].push(Seq::<char>::empty()));
    let whole = encode_utf8(text) + customer.data;
    if customer.credit == CustomerCredit::Bad {
        assert(after == leading_fifty(whole));
    }
}

/// Six fields, each closed by a space.
proof fn lemma_joined_parts(
    a: Seq<char>,
    b: Seq<char>,
    c: Seq<char>,
    d: Seq<char>,
    e: Seq<char>,
    f: Seq<char>,
)
    ensures
        joined(seq![a, b, c, d, e, f, Seq::<char>::empty()], ' ') == a + seq![' '] + b + seq![' ']
            + c + seq![' '] + d + seq![' '] + e + seq![' '] + f + seq![' '],
{
    let nothing = Seq::<char>::empty();
    reveal_with_fuel(joined, 8);
    let s7 = seq![a, b, c, d, e, f, nothing];
    let s6 = seq![a, b, c, d, e, f];
    let s5 = seq![a, b, c, d, e];
    let s4 = seq![a, b, c, d];
    let s3 = seq![a, b, c];
    let s2 = seq![a, b];
    let s1 = seq![a];
    assert(s7.drop_last() =~= s6);
    assert(s6.drop_last() =~= s5);
    assert(s5.drop_last() =~= s4);
    assert(s4.drop_last() =~= s3);
    assert(s3.drop_last() =~= s2);
    assert(s2.drop_last() =~= s1);
    assert(joined(s1, ' ') =~= a);
    assert(joined(s2, ' ') =~= a + seq![' '] + b);
    assert(joined(s3, ' ') =~= a + seq![' '] + b + seq![' '] + c);
    assert(joined(s4, ' ') =~= a + seq![' '] + b + seq![' '] + c + seq![' '] + d);
    assert(joined(s5, ' ') =~= a + seq![' '] + b + seq![' '] + c + seq![' '] + d + seq![' '] + e);
    assert(joined(s6, ' ') =~= a + seq![' '] + b + seq![' '] + c + seq![' '] + d + seq![' '] + e
        + seq![' '] + f);
}

} // verus!
