//! The market-orders saga: an independent instance of the work-graph
//! pattern with a fixed seed list and pagination as its only expansion.
//! Decisions are a pure state machine; the embedding program performs
//! the fetches and feeds the events back.

use vstd::prelude::*;

use crate::types::{MarketOrder, RegionId, TypeId};

verus! {

/// Retries before a market work item is dropped.
pub const MARKET_MAX_RETRIES: u32 = 3;

#[derive(Clone, Copy, PartialEq, Eq, Structural, Debug)]
pub enum WorkType {
    MarketOrderSell { region_id: RegionId, type_id: TypeId, page: usize },
    MarketOrderBuy { region_id: RegionId, type_id: TypeId, page: usize },
}

/// A queued market fetch with its retry count.
#[derive(Clone, Copy, PartialEq, Eq, Structural, Debug)]
pub struct WorkItem {
    pub work_type: WorkType,
    pub priority: u8,
    pub retry_count: u32,
}

#[derive(Clone, Copy, PartialEq, Eq, Structural, Debug)]
pub enum SagaStatus {
    Started,
    Processing,
    Completed,
}

#[derive(Clone, Copy, PartialEq, Eq, Structural, Debug)]
pub enum SagaError {
    InvalidState,
    ProcessingError,
}

#[derive(Clone, Copy, PartialEq, Eq, Structural, Debug)]
pub enum WorkerError {
    EsiError,
    SagaError,
}

#[derive(Clone, Copy, PartialEq, Eq, Structural, Debug)]
pub enum WorkerType {
    MarketOrders,
}

/// One fetched order book page.
pub enum WorkResult {
    MarketOrdersSell {
        region_id: RegionId,
        type_id: TypeId,
        orders: Vec<MarketOrder>,
        page: usize,
        total_pages: usize,
    },
    MarketOrdersBuy {
        region_id: RegionId,
        type_id: TypeId,
        orders: Vec<MarketOrder>,
        page: usize,
        total_pages: usize,
    },
}

pub enum SagaEvent {
    SagaStarted,
    WorkCompleted { work_type: WorkType, result: WorkResult },
    WorkFailed { work_type: WorkType },
}

/// A page count small enough that the fan-out counter cannot overflow.
pub open spec fn event_bounded(e: &SagaEvent) -> bool {
    match e {
        SagaEvent::WorkCompleted { result, .. } => match result {
            WorkResult::MarketOrdersSell { total_pages, .. } => *total_pages < usize::MAX,
            WorkResult::MarketOrdersBuy { total_pages, .. } => *total_pages < usize::MAX,
        },
        _ => true,
    }
}

/// The fixed order books every run watches: one region, three types.
pub open spec fn seed_books() -> Seq<(RegionId, TypeId)> {
    seq![(10000002int as RegionId, 44992i32), (10000002int as RegionId, 40520i32), (10000002int as RegionId, 40519i32)]
}

pub open spec fn seed_sell_item(b: (RegionId, TypeId)) -> WorkItem {
    WorkItem {
        work_type: WorkType::MarketOrderSell { region_id: b.0, type_id: b.1, page: 1 },
        priority: 5,
        retry_count: 0,
    }
}

pub open spec fn seed_buy_item(b: (RegionId, TypeId)) -> WorkItem {
    WorkItem {
        work_type: WorkType::MarketOrderBuy { region_id: b.0, type_id: b.1, page: 1 },
        priority: 5,
        retry_count: 0,
    }
}

/// The sell pages `2..=total` of one book, in page order.
pub open spec fn sell_fanout(region_id: RegionId, type_id: TypeId, total: int) -> Seq<WorkItem>
    decreases total,
{
    if total < 2 {
        Seq::<WorkItem>::empty()
    } else {
        sell_fanout(region_id, type_id, total - 1).push(
            WorkItem {
                work_type: WorkType::MarketOrderSell { region_id, type_id, page: total as usize },
                priority: 5,
                retry_count: 0,
            },
        )
    }
}

/// The buy pages `2..=total` of one book, in page order.
pub open spec fn buy_fanout(region_id: RegionId, type_id: TypeId, total: int) -> Seq<WorkItem>
    decreases total,
{
    if total < 2 {
        Seq::<WorkItem>::empty()
    } else {
        buy_fanout(region_id, type_id, total - 1).push(
            WorkItem {
                work_type: WorkType::MarketOrderBuy { region_id, type_id, page: total as usize },
                priority: 5,
                retry_count: 0,
            },
        )
    }
}

pub struct MarketResolutionSaga {
    pub status: SagaStatus,
    market_orders_sell_queue: Vec<WorkItem>,
    market_orders_buy_queue: Vec<WorkItem>,
    in_flight_work: Vec<WorkItem>,
    resolved_market_orders_sell: Vec<(RegionId, TypeId, usize)>,
    resolved_market_orders_buy: Vec<(RegionId, TypeId, usize)>,
}

impl MarketResolutionSaga {
    pub closed spec fn sell_queue(&self) -> Seq<WorkItem> {
        self.market_orders_sell_queue@
    }

    pub closed spec fn buy_queue(&self) -> Seq<WorkItem> {
        self.market_orders_buy_queue@
    }

    pub closed spec fn in_flight_seq(&self) -> Seq<WorkItem> {
        self.in_flight_work@
    }

    pub closed spec fn resolved_sell(&self) -> Seq<(RegionId, TypeId, usize)> {
        self.resolved_market_orders_sell@
    }

    pub closed spec fn resolved_buy(&self) -> Seq<(RegionId, TypeId, usize)> {
        self.resolved_market_orders_buy@
    }

    pub open spec fn work_in_flight(&self, w: WorkType) -> bool {
        exists|i: int|
            0 <= i < self.in_flight_seq().len() && (#[trigger] self.in_flight_seq()[i]).work_type
                == w
    }

    /// The in-flight item of a work type; meaningful when it is in
    /// flight and the state is well formed (work types are then unique).
    pub open spec fn in_flight_item(&self, w: WorkType) -> WorkItem {
        self.in_flight_seq()[choose|i: int|
            0 <= i < self.in_flight_seq().len() && (#[trigger] self.in_flight_seq()[i]).work_type
                == w]
    }

    /// In-flight work types are pairwise distinct.
    pub open spec fn wf(&self) -> bool {
        forall|i: int, j: int|
            0 <= i < j < self.in_flight_seq().len() ==> (
            #[trigger] self.in_flight_seq()[i]).work_type != (
            #[trigger] self.in_flight_seq()[j]).work_type
    }

    pub fn new() -> (r: MarketResolutionSaga)
        ensures
            r.wf(),
            r.sell_queue().len() == 0,
            r.buy_queue().len() == 0,
            r.in_flight_seq().len() == 0,
            r.resolved_sell().len() == 0,
            r.resolved_buy().len() == 0,
    {
        MarketResolutionSaga {
            status: SagaStatus::Started,
            market_orders_sell_queue: Vec::new(),
            market_orders_buy_queue: Vec::new(),
            in_flight_work: Vec::new(),
            resolved_market_orders_sell: Vec::new(),
            resolved_market_orders_buy: Vec::new(),
        }
    }

    /// Pop the next fetch: sell pages first, then buy pages; the item
    /// moves in flight unless its work type is already there.
    pub fn get_work(&mut self, worker_type: WorkerType) -> (r: Option<WorkItem>)
        requires
            old(self).wf(),
        ensures
            final(self).wf(),
            final(self).resolved_sell() == old(self).resolved_sell(),
            final(self).resolved_buy() == old(self).resolved_buy(),
            match r {
                None => {
                    &&& old(self).sell_queue().len() == 0
                    &&& old(self).buy_queue().len() == 0
                    &&& final(self).in_flight_seq() == old(self).in_flight_seq()
                    &&& final(self).sell_queue() == old(self).sell_queue()
                    &&& final(self).buy_queue() == old(self).buy_queue()
                },
                Some(item) => {
                    &&& (old(self).sell_queue().len() > 0 ==> item == old(self).sell_queue()[0]
                        && final(self).sell_queue() == old(self).sell_queue().subrange(
                        1,
                        old(self).sell_queue().len() as int,
                    ) && final(self).buy_queue() == old(self).buy_queue())
                    &&& (old(self).sell_queue().len() == 0 ==> old(self).buy_queue().len() > 0
                        && item == old(self).buy_queue()[0] && final(self).buy_queue() == old(self).buy_queue().subrange(1, old(self).buy_queue().len() as int) && final(self).sell_queue() == old(self).sell_queue())
                    &&& final(self).work_in_flight(item.work_type)
                },
            },
    {
        let _ = worker_type;
        let item: WorkItem = if self.market_orders_sell_queue.len() > 0 {
            self.market_orders_sell_queue.remove(0)
        } else if self.market_orders_buy_queue.len() > 0 {
            self.market_orders_buy_queue.remove(0)
        } else {
            return None;
        };
        let ghost f0 = self.in_flight_seq();
        if !self.type_in_flight(item.work_type) {
            self.in_flight_work.push(item);
            proof {
                assert(self.in_flight_seq()[f0.len() as int] == item);
                assert forall|i: int, j: int|
                    0 <= i < j < self.in_flight_seq().len() implies (
                #[trigger] self.in_flight_seq()[i]).work_type != (
                #[trigger] self.in_flight_seq()[j]).work_type by {
                    if j < f0.len() {
                        assert(self.in_flight_seq()[i] == f0[i] && self.in_flight_seq()[j] == f0[j]);
                    } else {
                        assert(self.in_flight_seq()[i] == f0[i]);
                    }
                }
            }
        } else {
            proof {
                let i = choose|i: int|
                    0 <= i < f0.len() && (#[trigger] f0[i]).work_type == item.work_type;
                assert(self.work_in_flight(item.work_type));
            }
        }
        Some(item)
    }

    fn type_in_flight(&self, w: WorkType) -> (r: bool)
        ensures
            r == self.work_in_flight(w),
    {
        let n = self.in_flight_work.len();
        let mut i: usize = 0;
        while i < n
            invariant
                n == self.in_flight_seq().len(),
                i <= n,
                forall|j: int| 0 <= j < i ==> (#[trigger] self.in_flight_seq()[j]).work_type != w,
            decreases n - i,
        {
            if self.in_flight_work[i].work_type == w {
                return true;
            }
            i = i + 1;
        }
        false
    }

    fn remove_in_flight(&mut self, w: WorkType) -> (r: Option<WorkItem>)
        requires
            old(self).wf(),
        ensures
            final(self).wf(),
            final(self).sell_queue() == old(self).sell_queue(),
            final(self).buy_queue() == old(self).buy_queue(),
            final(self).resolved_sell() == old(self).resolved_sell(),
            final(self).resolved_buy() == old(self).resolved_buy(),
            match r {
                Some(item) => item.work_type == w && item == old(self).in_flight_item(w) && old(self).work_in_flight(w) && !final(self).work_in_flight(w),
                None => !old(self).work_in_flight(w) && final(self).in_flight_seq() == old(self).in_flight_seq(),
            },
    {
        let n = self.in_flight_work.len();
        let mut i: usize = 0;
        while i < n
            invariant
                old(self) == self,
                old(self).wf(),
                n == self.in_flight_seq().len(),
                i <= n,
                forall|j: int| 0 <= j < i ==> (#[trigger] self.in_flight_seq()[j]).work_type != w,
            decreases n - i,
        {
            if self.in_flight_work[i].work_type == w {
                let ghost f0 = self.in_flight_seq();
                proof {
                    let j = choose|j: int|
                        0 <= j < f0.len() && (#[trigger] f0[j]).work_type == w;
                    if j != i {
                        assert(f0[j].work_type != f0[i as int].work_type);
                    }
                    assert(old(self).in_flight_item(w) == f0[i as int]);
                }
                let item = self.in_flight_work.remove(i);
                proof {
                    let fnew = self.in_flight_seq();
                    assert(fnew == f0.remove(i as int));
                    assert forall|p: int, q: int|
                        0 <= p < q < fnew.len() implies (#[trigger] fnew[p]).work_type != (
                    #[trigger] fnew[q]).work_type by {
                        let p0 = if p < i {
                            p
                        } else {
                            p + 1
                        };
                        let q0 = if q < i {
                            q
                        } else {
                            q + 1
                        };
                        assert(fnew[p] == f0[p0] && fnew[q] == f0[q0]);
                    }
                    assert(!self.work_in_flight(w)) by {
                        if self.work_in_flight(w) {
                            let j = choose|j: int|
                                0 <= j < fnew.len() && (#[trigger] fnew[j]).work_type == w;
                            let j0 = if j < i {
                                j
                            } else {
                                j + 1
                            };
                            assert(fnew[j] == f0[j0]);
                            assert(f0[i as int].work_type == w);
                        }
                    }
                }
                return Some(item);
            }
            i = i + 1;
        }
        None
    }

    /// Advance the saga on one event: seed the fixed order books on
    /// start; record a completed page and fan out the remaining pages
    /// from page one; put a failed fetch back until its retries run out.
    pub fn handle_event(&mut self, event: SagaEvent) -> (r: Result<(), SagaError>)
        requires
            old(self).wf(),
            event_bounded(&event),
        ensures
            final(self).wf(),
            r is Ok,
            match event {
                SagaEvent::SagaStarted => {
                    &&& final(self).sell_queue() == old(self).sell_queue() + seed_books().map_values(
                        |b: (RegionId, TypeId)| seed_sell_item(b),
                    )
                    &&& final(self).buy_queue() == old(self).buy_queue() + seed_books().map_values(
                        |b: (RegionId, TypeId)| seed_buy_item(b),
                    )
                    &&& final(self).in_flight_seq() == old(self).in_flight_seq()
                    &&& final(self).resolved_sell() == old(self).resolved_sell()
                    &&& final(self).resolved_buy() == old(self).resolved_buy()
                },
                SagaEvent::WorkCompleted { work_type, result } => {
                    &&& (old(self).work_in_flight(work_type) ==> !final(self).work_in_flight(
                        work_type,
                    ))
                    &&& (match result {
                        WorkResult::MarketOrdersSell { region_id, type_id, page, total_pages, .. } => {
                            old(self).work_in_flight(work_type) ==> {
                                &&& final(self).resolved_sell() == old(self).resolved_sell().push(
                                    (region_id, type_id, page),
                                )
                                &&& final(self).sell_queue() == old(self).sell_queue() + (
                                if page == 1 {
                                    sell_fanout(region_id, type_id, total_pages as int)
                                } else {
                                    Seq::<WorkItem>::empty()
                                })
                                &&& final(self).buy_queue() == old(self).buy_queue()
                            }
                        },
                        WorkResult::MarketOrdersBuy { region_id, type_id, page, total_pages, .. } => {
                            old(self).work_in_flight(work_type) ==> {
                                &&& final(self).resolved_buy() == old(self).resolved_buy().push(
                                    (region_id, type_id, page),
                                )
                                &&& final(self).buy_queue() == old(self).buy_queue() + (
                                if page == 1 {
                                    buy_fanout(region_id, type_id, total_pages as int)
                                } else {
                                    Seq::<WorkItem>::empty()
                                })
                                &&& final(self).sell_queue() == old(self).sell_queue()
                            }
                        },
                    })
                    &&& (!old(self).work_in_flight(work_type) ==> final(self).resolved_sell()
                        == old(self).resolved_sell() && final(self).resolved_buy() == old(self).resolved_buy()
                        && final(self).sell_queue() == old(self).sell_queue() && final(self).buy_queue()
                        == old(self).buy_queue())
                },
                SagaEvent::WorkFailed { work_type } => {
                    &&& final(self).resolved_sell() == old(self).resolved_sell()
                    &&& final(self).resolved_buy() == old(self).resolved_buy()
                    &&& (old(self).work_in_flight(work_type) ==> {
                        let it = old(self).in_flight_item(work_type);
                        let renewed = WorkItem {
                            work_type: it.work_type,
                            priority: it.priority,
                            retry_count: (it.retry_count + 1) as u32,
                        };
                        &&& !final(self).work_in_flight(work_type)
                        &&& (it.retry_count + 1 < MARKET_MAX_RETRIES ==> (match work_type {
                            WorkType::MarketOrderSell { .. } => final(self).sell_queue() == old(self).sell_queue().push(renewed) && final(self).buy_queue() == old(self).buy_queue(),
                            WorkType::MarketOrderBuy { .. } => final(self).buy_queue() == old(self).buy_queue().push(renewed) && final(self).sell_queue() == old(self).sell_queue(),
                        }))
                        &&& (it.retry_count + 1 >= MARKET_MAX_RETRIES ==> final(self).sell_queue()
                            == old(self).sell_queue() && final(self).buy_queue() == old(self).buy_queue())
                    })
                    &&& (!old(self).work_in_flight(work_type) ==> final(self).sell_queue() == old(self).sell_queue() && final(self).buy_queue() == old(self).buy_queue() && final(self).in_flight_seq() == old(self).in_flight_seq())
                },
            },
    {
        match event {
            SagaEvent::SagaStarted => {
                self.status = SagaStatus::Processing;
                let seeds: [(RegionId, TypeId); 3] = [
                    (10000002, 44992),
                    (10000002, 40520),
                    (10000002, 40519),
                ];
                proof {
                    assert(seeds@ =~= seed_books());
                }
                let mut i: usize = 0;
                while i < 3
                    invariant
                        self.wf(),
                        i <= 3,
                        seeds@ == seed_books(),
                        self.sell_queue() == old(self).sell_queue() + seed_books().subrange(
                            0,
                            i as int,
                        ).map_values(|b: (RegionId, TypeId)| seed_sell_item(b)),
                        self.buy_queue() == old(self).buy_queue() + seed_books().subrange(
                            0,
                            i as int,
                        ).map_values(|b: (RegionId, TypeId)| seed_buy_item(b)),
                        self.resolved_sell() == old(self).resolved_sell(),
                        self.resolved_buy() == old(self).resolved_buy(),
                        self.in_flight_seq() == old(self).in_flight_seq(),
                    decreases 3 - i,
                {
                    let (region_id, type_id) = seeds[i];
                    self.market_orders_buy_queue.push(
                        WorkItem {
                            work_type: WorkType::MarketOrderBuy { region_id, type_id, page: 1 },
                            priority: 5,
                            retry_count: 0,
                        },
                    );
                    self.market_orders_sell_queue.push(
                        WorkItem {
                            work_type: WorkType::MarketOrderSell { region_id, type_id, page: 1 },
                            priority: 5,
                            retry_count: 0,
                        },
                    );
                    proof {
                        assert(old(self).sell_queue() + seed_books().subrange(0, i + 1).map_values(
                            |b: (RegionId, TypeId)| seed_sell_item(b),
                        ) =~= (old(self).sell_queue() + seed_books().subrange(0, i as int).map_values(
                            |b: (RegionId, TypeId)| seed_sell_item(b),
                        )).push(seed_sell_item(seed_books()[i as int])));
                        assert(old(self).buy_queue() + seed_books().subrange(0, i + 1).map_values(
                            |b: (RegionId, TypeId)| seed_buy_item(b),
                        ) =~= (old(self).buy_queue() + seed_books().subrange(0, i as int).map_values(
                            |b: (RegionId, TypeId)| seed_buy_item(b),
                        )).push(seed_buy_item(seed_books()[i as int])));
                    }
                    i = i + 1;
                }
                proof {
                    assert(seed_books().subrange(0, 3) =~= seed_books());
                }
                Ok(())
            }
            SagaEvent::WorkCompleted { work_type, result } => {
                let had = self.remove_in_flight(work_type);
                match had {
                    Some(_item) => {
                        match result {
                            WorkResult::MarketOrdersSell {
                                region_id,
                                type_id,
                                orders: _,
                                page,
                                total_pages,
                            } => {
                                self.resolved_market_orders_sell.push((region_id, type_id, page));
                                let ghost mid = *self;
                                if page == 1 {
                                    let mut p: usize = 2;
                                    proof {
                                        assert(self.sell_queue() =~= mid.sell_queue()
                                            + sell_fanout(region_id, type_id, 1));
                                    }
                                    while p <= total_pages
                                        invariant
                                            self.wf(),
                                            total_pages < usize::MAX,
                                            2 <= p,
                                            total_pages < 2 ==> p == 2,
                                            total_pages >= 2 ==> p <= total_pages + 1,
                                            self.resolved_sell() == mid.resolved_sell(),
                                            self.resolved_buy() == mid.resolved_buy(),
                                            self.buy_queue() == mid.buy_queue(),
                                            self.sell_queue() == mid.sell_queue() + sell_fanout(
                                                region_id,
                                                type_id,
                                                p - 1,
                                            ),
                                            self.in_flight_seq() == mid.in_flight_seq(),
                                        decreases total_pages + 1 - p,
                                    {
                                        self.market_orders_sell_queue.push(
                                            WorkItem {
                                                work_type: WorkType::MarketOrderSell {
                                                    region_id,
                                                    type_id,
                                                    page: p,
                                                },
                                                priority: 5,
                                                retry_count: 0,
                                            },
                                        );
                                        p = p + 1;
                                    }
                                    proof {
                                        assert(p > total_pages);
                                        if total_pages < 2 {
                                            assert(sell_fanout(region_id, type_id, total_pages as int)
                                                =~= Seq::<WorkItem>::empty());
                                            assert(sell_fanout(region_id, type_id, 1)
                                                =~= Seq::<WorkItem>::empty());
                                            assert(self.sell_queue() =~= mid.sell_queue()
                                                + sell_fanout(region_id, type_id, total_pages as int));
                                        } else {
                                            assert(p == total_pages + 1);
                                            assert(p - 1 == total_pages as int);
                                            assert(self.sell_queue() =~= mid.sell_queue()
                                                + sell_fanout(region_id, type_id, total_pages as int));
                                        }
                                    }
                                } else {
                                    proof {
                                        assert(self.sell_queue() =~= mid.sell_queue()
                                            + Seq::<WorkItem>::empty());
                                    }
                                }
                            }
                            WorkResult::MarketOrdersBuy {
                                region_id,
                                type_id,
                                orders: _,
                                page,
                                total_pages,
                            } => {
                                self.resolved_market_orders_buy.push((region_id, type_id, page));
                                let ghost mid = *self;
                                if page == 1 {
                                    let mut p: usize = 2;
                                    proof {
                                        assert(self.buy_queue() =~= mid.buy_queue()
                                            + buy_fanout(region_id, type_id, 1));
                                    }
                                    while p <= total_pages
                                        invariant
                                            self.wf(),
                                            total_pages < usize::MAX,
                                            2 <= p,
                                            total_pages < 2 ==> p == 2,
                                            total_pages >= 2 ==> p <= total_pages + 1,
                                            self.resolved_sell() == mid.resolved_sell(),
                                            self.resolved_buy() == mid.resolved_buy(),
                                            self.sell_queue() == mid.sell_queue(),
                                            self.buy_queue() == mid.buy_queue() + buy_fanout(
                                                region_id,
                                                type_id,
                                                p - 1,
                                            ),
                                            self.in_flight_seq() == mid.in_flight_seq(),
                                        decreases total_pages + 1 - p,
                                    {
                                        self.market_orders_buy_queue.push(
                                            WorkItem {
                                                work_type: WorkType::MarketOrderBuy {
                                                    region_id,
                                                    type_id,
                                                    page: p,
                                                },
                                                priority: 5,
                                                retry_count: 0,
                                            },
                                        );
                                        p = p + 1;
                                    }
                                    proof {
                                        assert(p > total_pages);
                                        if total_pages < 2 {
                                            assert(buy_fanout(region_id, type_id, total_pages as int)
                                                =~= Seq::<WorkItem>::empty());
                                            assert(buy_fanout(region_id, type_id, 1)
                                                =~= Seq::<WorkItem>::empty());
                                            assert(self.buy_queue() =~= mid.buy_queue()
                                                + buy_fanout(region_id, type_id, total_pages as int));
                                        } else {
                                            assert(p == total_pages + 1);
                                            assert(p - 1 == total_pages as int);
                                            assert(self.buy_queue() =~= mid.buy_queue()
                                                + buy_fanout(region_id, type_id, total_pages as int));
                                        }
                                    }
                                } else {
                                    proof {
                                        assert(self.buy_queue() =~= mid.buy_queue()
                                            + Seq::<WorkItem>::empty());
                                    }
                                }
                            }
                        }
                    }
                    None => {}
                }
                Ok(())
            }
            SagaEvent::WorkFailed { work_type } => {
                let had = self.remove_in_flight(work_type);
                match had {
                    Some(item) => {
                        proof {
                            assert(item == old(self).in_flight_item(work_type));
                            assert(item.work_type == work_type);
                        }
                        if ((item.retry_count as u64) + 1) < (MARKET_MAX_RETRIES as u64) {
                            let ghost qpre = *self;
                            let renewed = WorkItem {
                                work_type: item.work_type,
                                priority: item.priority,
                                retry_count: item.retry_count + 1,
                            };
                            proof {
                                assert(renewed == (WorkItem {
                                    work_type: old(self).in_flight_item(work_type).work_type,
                                    priority: old(self).in_flight_item(work_type).priority,
                                    retry_count: (old(self).in_flight_item(work_type).retry_count
                                        + 1) as u32,
                                }));
                            }
                            match item.work_type {
                                WorkType::MarketOrderSell { .. } => {
                                    self.market_orders_sell_queue.push(renewed);
                                    proof {
                                        assert(self.sell_queue() == old(self).sell_queue().push(
                                            renewed,
                                        ));
                                        assert(self.buy_queue() == old(self).buy_queue());
                                    }
                                }
                                WorkType::MarketOrderBuy { .. } => {
                                    self.market_orders_buy_queue.push(renewed);
                                    proof {
                                        assert(self.buy_queue() == old(self).buy_queue().push(
                                            renewed,
                                        ));
                                        assert(self.sell_queue() == old(self).sell_queue());
                                    }
                                }
                            }
                        }
                    }
                    None => {}
                }
                Ok(())
            }
        }
    }

    /// All queues and the in-flight set are drained.
    pub fn is_complete(&self) -> (r: bool)
        ensures
            r == (self.in_flight_seq().len() == 0 && self.sell_queue().len() == 0
                && self.buy_queue().len() == 0),
    {
        self.in_flight_work.len() == 0 && self.market_orders_sell_queue.len() == 0
            && self.market_orders_buy_queue.len() == 0
    }

    pub fn sell_resolved_count(&self) -> (r: usize)
        ensures
            r == self.resolved_sell().len(),
    {
        self.resolved_market_orders_sell.len()
    }

    pub fn buy_resolved_count(&self) -> (r: usize)
        ensures
            r == self.resolved_buy().len(),
    {
        self.resolved_market_orders_buy.len()
    }
}

} // verus!
