//! The order lifecycle: the statuses the engine writes, the storage writes
//! it asks for, and the three-step dispatch protocol.

use crate::dto::DispatcherOrderRequestDto;
use crate::error::AppError;
use crate::models::{CarValue, Timestamp};
use vstd::prelude::*;

verus! {

/// The status of a newly created order.
pub open spec fn pending() -> Seq<char> {
    "pending"@
}

/// The status of an order with a truck assigned.
pub open spec fn dispatched() -> Seq<char> {
    "dispatched"@
}

/// The status of a truck assigned to an order.
pub open spec fn busy() -> Seq<char> {
    "busy"@
}

/// A write the engine asks storage to perform.
#[derive(Clone, Debug)]
pub enum StorageCommand {
    /// Insert a new order with status `pending` and no dispatcher or truck.
    InsertOrder { client_id: i32, node_id: i32, car_value: CarValue },
    /// Insert the dispatch record of an order.
    InsertCompletedOrder { order_id: i32, tow_truck_id: i32, order_time: Timestamp },
    /// Set an order's dispatcher and truck, and its status to `dispatched`.
    SetOrderDispatched { order_id: i32, dispatcher_id: i32, tow_truck_id: i32 },
    /// Overwrite a truck's status.
    SetTruckStatus { tow_truck_id: i32, status: String },
    /// Overwrite an order's status.
    SetOrderStatus { order_id: i32, status: String },
}

/// Where a dispatch stands.
#[derive(Clone, Copy, Debug, PartialEq, Eq, Structural)]
pub enum DispatchStage {
    /// Next: write the dispatch record.
    RecordDispatch,
    /// Next: assign the dispatcher and truck to the order.
    AssignOrder,
    /// Next: mark the truck busy.
    MarkTruckBusy,
    /// Nothing left to do.
    Done,
}

/// `cmd` is the write that a dispatch for `req` performs at `stage`.
pub open spec fn is_dispatch_command(
    req: DispatcherOrderRequestDto,
    stage: DispatchStage,
    cmd: StorageCommand,
) -> bool {
    match stage {
        DispatchStage::RecordDispatch => cmd == StorageCommand::InsertCompletedOrder {
            order_id: req.order_id,
            tow_truck_id: req.tow_truck_id,
            order_time: req.order_time,
        },
        DispatchStage::AssignOrder => cmd == StorageCommand::SetOrderDispatched {
            order_id: req.order_id,
            dispatcher_id: req.dispatcher_id,
            tow_truck_id: req.tow_truck_id,
        },
        DispatchStage::MarkTruckBusy => match cmd {
            StorageCommand::SetTruckStatus { tow_truck_id, status } => tow_truck_id
                == req.tow_truck_id && status@ == busy(),
            _ => false,
        },
        DispatchStage::Done => false,
    }
}

/// The stage after the write of `stage` succeeded or failed, and the
/// outcome of the dispatch when that ends it. A failed first write fails
/// the dispatch with nothing written; a later failure leaves the earlier
/// writes in place and is reported as a partial failure.
pub open spec fn dispatch_step(stage: DispatchStage, succeeded: bool) -> (DispatchStage, Option<
    Result<(), AppError>,
>) {
    match stage {
        DispatchStage::RecordDispatch => if succeeded {
            (DispatchStage::AssignOrder, None)
        } else {
            (DispatchStage::Done, Some(Err(AppError::BadRequest)))
        },
        DispatchStage::AssignOrder => if succeeded {
            (DispatchStage::MarkTruckBusy, None)
        } else {
            (DispatchStage::Done, Some(Err(AppError::PartialFailure)))
        },
        DispatchStage::MarkTruckBusy => if succeeded {
            (DispatchStage::Done, Some(Ok(())))
        } else {
            (DispatchStage::Done, Some(Err(AppError::PartialFailure)))
        },
        DispatchStage::Done => (DispatchStage::Done, None),
    }
}

/// The assignment of a truck to an order, in three writes: the dispatch
/// record, then the order, then the truck. The caller performs each
/// command and reports whether it succeeded. The order's current status is
/// not consulted: dispatching an order twice performs all three writes
/// again.
#[derive(Clone, Debug)]
pub struct Dispatch {
    pub request: DispatcherOrderRequestDto,
    pub stage: DispatchStage,
}

impl Dispatch {
    /// A dispatch for `request`, before any write.
    pub fn new(request: DispatcherOrderRequestDto) -> (d: Dispatch)
        ensures
            d.request == request,
            d.stage == DispatchStage::RecordDispatch,
    {
        Dispatch { request, stage: DispatchStage::RecordDispatch }
    }

    /// The write to perform now; none once the dispatch has ended.
    pub fn next_command(&self) -> (r: Option<StorageCommand>)
        ensures
            r is None <==> self.stage == DispatchStage::Done,
            r matches Some(cmd) ==> is_dispatch_command(self.request, self.stage, cmd),
    {
        match self.stage {
            DispatchStage::RecordDispatch => Some(
                StorageCommand::InsertCompletedOrder {
                    order_id: self.request.order_id,
                    tow_truck_id: self.request.tow_truck_id,
                    order_time: self.request.order_time,
                },
            ),
            DispatchStage::AssignOrder => Some(
                StorageCommand::SetOrderDispatched {
                    order_id: self.request.order_id,
                    dispatcher_id: self.request.dispatcher_id,
                    tow_truck_id: self.request.tow_truck_id,
                },
            ),
            DispatchStage::MarkTruckBusy => Some(
                StorageCommand::SetTruckStatus {
                    tow_truck_id: self.request.tow_truck_id,
                    status: "busy".to_owned(),
                },
            ),
            DispatchStage::Done => None,
        }
    }

    /// Takes in whether the last write succeeded; returns the outcome of
    /// the dispatch when this ends it.
    pub fn record_outcome(&mut self, succeeded: bool) -> (r: Option<Result<(), AppError>>)
        requires
            old(self).stage != DispatchStage::Done,
        ensures
            final(self).request == old(self).request,
            final(self).stage == dispatch_step(old(self).stage, succeeded).0,
            r == dispatch_step(old(self).stage, succeeded).1,
            r is Some <==> final(self).stage == DispatchStage::Done,
    {
        match self.stage {
            DispatchStage::RecordDispatch => {
                if succeeded {
                    self.stage = DispatchStage::AssignOrder;
                    None
                } else {
                    self.stage = DispatchStage::Done;
                    Some(Err(AppError::BadRequest))
                }
            },
            DispatchStage::AssignOrder => {
                if succeeded {
                    self.stage = DispatchStage::MarkTruckBusy;
                    None
                } else {
                    self.stage = DispatchStage::Done;
                    Some(Err(AppError::PartialFailure))
                }
            },
            _ => {
                self.stage = DispatchStage::Done;
                if succeeded {
                    Some(Ok(()))
                } else {
                    Some(Err(AppError::PartialFailure))
                }
            },
        }
    }
}

/// The write that creates a client's order.
pub fn client_order_command(client_id: i32, node_id: i32, car_value: CarValue) -> (r:
    StorageCommand)
    ensures
        r == (StorageCommand::InsertOrder { client_id, node_id, car_value }),
{
    StorageCommand::InsertOrder { client_id, node_id, car_value }
}

/// The outcome of creating an order: a storage failure is reported as a
/// bad request.
pub fn client_order_outcome(succeeded: bool) -> (r: Result<(), AppError>)
    ensures
        succeeded ==> r == Ok::<(), AppError>(()),
        !succeeded ==> r == Err::<(), AppError>(AppError::BadRequest),
{
    if succeeded {
        Ok(())
    } else {
        Err(AppError::BadRequest)
    }
}

} // verus!
