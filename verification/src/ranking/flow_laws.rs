//! What the courses of the transactions have in common.
use vstd::prelude::*;

use crate::ranking::common::law_only_aborts_are_retryable;
use crate::ranking::delivery_flow::{DeliveryCourse, DeliveryPoint, delivery_batch, delivery_next};
use crate::ranking::flow::{FlowNext, is_retryable};
use crate::ranking::new_order_flow::{
    NewOrderCourse, NewOrderPoint, new_order_batch, new_order_next,
};
use crate::ranking::order_status_flow::{
    OrderStatusCourse, OrderStatusPoint, order_status_batch, order_status_next,
};
use crate::ranking::payment_flow::{PaymentCourse, PaymentPoint, payment_batch, payment_next};
use crate::wire::BatchResponse;

verus! {

/// How many answers a NewOrder waits for at most.
pub open spec fn new_order_answers(point: NewOrderPoint) -> nat {
    match point {
        NewOrderPoint::Read { .. } => 2,
        NewOrderPoint::Write { .. } => 1,
        NewOrderPoint::Abort(_) => 1,
    }
}

/// A NewOrder ends after a bounded number of answers: every answer brings it closer
/// to its end.
pub proof fn law_new_order_ends(m: NewOrderCourse, response: BatchResponse)
    ensures
        new_order_next(m, response) matches FlowNext::Next(next) ==> new_order_answers(next.point) < new_order_answers(
            m.point,
        ),
{
}

/// Once the batch of a NewOrder that holds its commit is sent, nothing is aborted
/// any more: the answer ends the transaction.
pub proof fn law_new_order_commits_once(m: NewOrderCourse, response: BatchResponse)
    requires
        m.point is Write,
    ensures
        !(new_order_next(m, response) is Next),
{
}

/// A NewOrder is tried again only after an abort: one that the server reports, or
/// one that another transaction made necessary.
pub proof fn law_new_order_retries_after_aborts(m: NewOrderCourse, response: BatchResponse)
    ensures
        new_order_next(m, response) matches FlowNext::Failed(fault) && is_retryable(fault) ==> (
        response is TransactionAbort || (m.point matches NewOrderPoint::Abort(pending)
            && is_retryable(pending))),
{
    law_only_aborts_are_retryable(response, new_order_batch(m).len());
}

/// How many answers a Payment waits for at most.
pub open spec fn payment_answers(point: PaymentPoint) -> nat {
    match point {
        PaymentPoint::Read => 2,
        PaymentPoint::Write { .. } => 1,
        PaymentPoint::Abort(_) => 1,
    }
}

/// A Payment ends after a bounded number of answers: every answer brings it closer
/// to its end.
pub proof fn law_payment_ends(m: PaymentCourse, response: BatchResponse)
    ensures
        payment_next(m, response) matches FlowNext::Next(next) ==> payment_answers(next.point) < payment_answers(
            m.point,
        ),
{
}

/// Once the batch of a Payment that holds its commit is sent, nothing is aborted
/// any more: the answer ends the transaction.
pub proof fn law_payment_commits_once(m: PaymentCourse, response: BatchResponse)
    requires
        m.point is Write,
    ensures
        !(payment_next(m, response) is Next),
{
}

/// A Payment is tried again only after an abort: one that the server reports, or
/// one that another transaction made necessary.
pub proof fn law_payment_retries_after_aborts(m: PaymentCourse, response: BatchResponse)
    ensures
        payment_next(m, response) matches FlowNext::Failed(fault) && is_retryable(fault) ==> (
        response is TransactionAbort || (m.point matches PaymentPoint::Abort(pending)
            && is_retryable(pending))),
{
    law_only_aborts_are_retryable(response, payment_batch(m).len());
}

/// How many answers an OrderStatus waits for at most.
pub open spec fn order_status_answers(point: OrderStatusPoint) -> nat {
    match point {
        OrderStatusPoint::Customer => 3,
        OrderStatusPoint::Latest { .. } => 2,
        OrderStatusPoint::Read { .. } => 1,
        OrderStatusPoint::Abort(_) => 1,
    }
}

/// An OrderStatus ends after a bounded number of answers: every answer brings it closer
/// to its end.
pub proof fn law_order_status_ends(m: OrderStatusCourse, response: BatchResponse)
    ensures
        order_status_next(m, response) matches FlowNext::Next(next) ==> order_status_answers(next.point) < order_status_answers(
            m.point,
        ),
{
}

/// Once the batch of an OrderStatus that holds its commit is sent, nothing is aborted
/// any more: the answer ends the transaction.
pub proof fn law_order_status_commits_once(m: OrderStatusCourse, response: BatchResponse)
    requires
        m.point is Read,
    ensures
        !(order_status_next(m, response) is Next),
{
}

/// An OrderStatus is tried again only after an abort: one that the server reports, or
/// one that another transaction made necessary.
pub proof fn law_order_status_retries_after_aborts(m: OrderStatusCourse, response: BatchResponse)
    ensures
        order_status_next(m, response) matches FlowNext::Failed(fault) && is_retryable(fault) ==> (
        response is TransactionAbort || (m.point matches OrderStatusPoint::Abort(pending)
            && is_retryable(pending))),
{
    law_only_aborts_are_retryable(response, order_status_batch(m).len());
}

/// How many answers a Delivery waits for at most.
pub open spec fn delivery_answers(point: DeliveryPoint) -> nat {
    match point {
        DeliveryPoint::Claim => 3,
        DeliveryPoint::Lock { .. } => 2,
        DeliveryPoint::Deliver { .. } => 1,
        DeliveryPoint::CommitEmpty => 1,
        DeliveryPoint::Abort(_) => 1,
    }
}

/// A Delivery ends after a bounded number of answers: every answer brings it closer
/// to its end.
pub proof fn law_delivery_ends(m: DeliveryCourse, response: BatchResponse)
    ensures
        delivery_next(m, response) matches FlowNext::Next(next) ==> delivery_answers(next.point) < delivery_answers(
            m.point,
        ),
{
}

/// Once the batch of a Delivery that holds its commit is sent, nothing is aborted
/// any more: the answer ends the transaction.
pub proof fn law_delivery_commits_once(m: DeliveryCourse, response: BatchResponse)
    requires
        m.point is Deliver || m.point is CommitEmpty,
    ensures
        !(delivery_next(m, response) is Next),
{
}

/// A Delivery is tried again only after an abort: one that the server reports, or
/// one that another transaction made necessary.
pub proof fn law_delivery_retries_after_aborts(m: DeliveryCourse, response: BatchResponse)
    ensures
        delivery_next(m, response) matches FlowNext::Failed(fault) && is_retryable(fault) ==> (
        response is TransactionAbort || (m.point matches DeliveryPoint::Abort(pending)
            && is_retryable(pending))),
{
    law_only_aborts_are_retryable(response, delivery_batch(m).len());
}

/// A NewOrder that has an outcome took two batches: the reads, then the writes.
pub proof fn law_new_order_takes_two_batches(m: NewOrderCourse, response: BatchResponse)
    ensures
        new_order_next(m, response) is Finished ==> m.point is Write,
        new_order_next(m, response) matches FlowNext::Next(next) ==> m.point is Read && !(
        next.point is Read),
{
}

/// A Payment that has an outcome took two batches: the reads, then the writes.
pub proof fn law_payment_takes_two_batches(m: PaymentCourse, response: BatchResponse)
    ensures
        payment_next(m, response) is Finished ==> m.point is Write,
        payment_next(m, response) matches FlowNext::Next(next) ==> m.point is Read && !(
        next.point is Read),
{
}

/// An OrderStatus that has an outcome took three batches: the customer, the
/// latest order, then the order.
pub proof fn law_order_status_takes_three_batches(m: OrderStatusCourse, response: BatchResponse)
    ensures
        order_status_next(m, response) is Finished ==> m.point is Read,
        order_status_next(m, response) matches FlowNext::Next(next) ==> match m.point {
            OrderStatusPoint::Customer => next.point is Latest || next.point is Abort,
            OrderStatusPoint::Latest { .. } => next.point is Read || next.point is Abort,
            _ => false,
        },
{
}

/// A Delivery that has an outcome took two batches where there was nothing to
/// deliver, and three otherwise.
pub proof fn law_delivery_takes_two_or_three_batches(m: DeliveryCourse, response: BatchResponse)
    ensures
        delivery_next(m, response) matches FlowNext::Finished(end) ==> match m.point {
            DeliveryPoint::CommitEmpty => end.orders.len() == 0,
            DeliveryPoint::Deliver { orders, .. } => end.orders == orders,
            _ => false,
        },
        delivery_next(m, response) matches FlowNext::Next(next) ==> match m.point {
            DeliveryPoint::Claim => next.point is CommitEmpty || next.point is Lock
                || next.point is Abort,
            DeliveryPoint::Lock { .. } => next.point is Deliver || next.point is Abort,
            _ => false,
        },
{
}

} // verus!
