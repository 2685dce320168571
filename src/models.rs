use vstd::prelude::*;

verus! {

/// Number of seconds in one calendar day.
pub const SECONDS_PER_DAY: u32 = 86400;

/// Number of seconds in one hour.
pub const SECONDS_PER_HOUR: u32 = 3600;

/// Rates (commission, take-profit margin, price bands) are given in parts per
/// million of the amount they apply to: 400 stands for 0.04%.
pub const RATE_SCALE: u64 = 1_000_000;

/// A point in time: a day number and the second within that day.
#[derive(Clone, Copy, Debug, PartialEq, Eq, Structural)]
pub struct Moment {
    pub day: i64,
    pub second: u32,
}

impl Moment {
    /// The moment lies on a real second of its day.
    pub open spec fn valid(self) -> bool {
        self.second < SECONDS_PER_DAY
    }

    /// Strictly earlier than `other`.
    pub open spec fn before(self, other: Moment) -> bool {
        self.day < other.day || (self.day == other.day && self.second < other.second)
    }

    pub open spec fn hour_spec(self) -> u32 {
        self.second / SECONDS_PER_HOUR
    }

    /// The hour of the day (0 to 23) in which the moment falls.
    pub fn hour(&self) -> (r: u32)
        requires
            self.valid(),
        ensures
            r == self.hour_spec(),
            r < 24,
    {
        self.second / SECONDS_PER_HOUR
    }

    /// Whether `self` is strictly earlier than `other`.
    pub fn is_before(&self, other: &Moment) -> (r: bool)
        ensures
            r == self.before(*other),
    {
        self.day < other.day || (self.day == other.day && self.second < other.second)
    }
}


/// One price bar: prices and traded value in minor currency units, volume in
/// shares, and the half-open interval `[begin, end)` it covers.
#[derive(Clone, Copy, Debug, PartialEq, Eq, Structural)]
pub struct Candle {
    pub open: u64,
    pub close: u64,
    pub high: u64,
    pub low: u64,
    pub value: u64,
    pub volume: u64,
    pub begin: Moment,
    pub end: Moment,
}

impl Candle {
    /// A candle that the replay accepts: non-zero open and close prices and a
    /// non-empty interval of real seconds.
    pub open spec fn valid(self) -> bool {
        &&& self.open > 0
        &&& self.close > 0
        &&& self.begin.valid()
        &&& self.end.valid()
        &&& self.begin.before(self.end)
    }

    /// Whether the candle passes the data checks of the replay.
    pub fn is_valid(&self) -> (r: bool)
        ensures
            r == self.valid(),
    {
        self.open > 0 && self.close > 0 && self.begin.second < SECONDS_PER_DAY
            && self.end.second < SECONDS_PER_DAY && self.begin.is_before(&self.end)
    }
}

/// The bar interval of a candle series.
#[derive(Clone, Copy, Debug, PartialEq, Eq, Structural)]
pub enum Frame {
    M1,
    H1,
    D1,
}

impl Frame {
    /// Reads a frame from its short name: "m1", "h1" or "d1".
    pub fn parse(value: &str) -> (r: Option<Frame>)
        ensures
            r == Some(Frame::M1) <==> value@ == "m1"@,
            r == Some(Frame::H1) <==> value@ == "h1"@,
            r == Some(Frame::D1) <==> value@ == "d1"@,
            r is None <==> (value@ != "m1"@ && value@ != "h1"@ && value@ != "d1"@),
    {
        let owned = value.to_owned();
        let m1 = "m1".to_owned();
        let h1 = "h1".to_owned();
        let d1 = "d1".to_owned();
        proof {
            reveal_strlit("m1");
            reveal_strlit("h1");
            reveal_strlit("d1");
            assert("m1"@[0] != "h1"@[0]);
            assert("m1"@[0] != "d1"@[0]);
            assert("h1"@[0] != "d1"@[0]);
        }
        if owned == h1 {
            Some(Frame::H1)
        } else if owned == d1 {
            Some(Frame::D1)
        } else if owned == m1 {
            Some(Frame::M1)
        } else {
            None
        }
    }

    pub open spec fn name(self) -> Seq<char> {
        match self {
            Frame::M1 => "m1"@,
            Frame::H1 => "h1"@,
            Frame::D1 => "d1"@,
        }
    }

    /// The short name of the frame.
    pub fn to_string(&self) -> (r: String)
        ensures
            r@ == self.name(),
    {
        match self {
            Frame::M1 => "m1".to_owned(),
            Frame::H1 => "h1".to_owned(),
            Frame::D1 => "d1".to_owned(),
        }
    }
}

/// The code of a traded instrument, as listed by the market.
#[derive(Clone, Debug)]
pub struct SecuritiesStr(pub String);

impl SecuritiesStr {
    /// The code as a plain string.
    pub fn into_string(self) -> (r: String)
        ensures
            r == self.0,
    {
        self.0
    }
}

/// The period over which an average traded volume is taken.
#[derive(Clone, Copy, Debug, PartialEq, Eq, Structural)]
pub enum AvgPeriod {
    Year,
    Month,
}

/// The side of a ledger entry.
#[derive(Clone, Copy, Debug, PartialEq, Eq, Structural)]
pub enum OperationType {
    Buy,
    Sold,
}

impl OperationType {
    /// Reads an operation type from its name: "buy" or "sold".
    pub fn parse(value: &str) -> (r: Option<OperationType>)
        ensures
            r == Some(OperationType::Buy) <==> value@ == "buy"@,
            r == Some(OperationType::Sold) <==> value@ == "sold"@,
            r is None <==> (value@ != "buy"@ && value@ != "sold"@),
    {
        let owned = value.to_owned();
        let buy = "buy".to_owned();
        let sold = "sold".to_owned();
        proof {
            reveal_strlit("buy");
            reveal_strlit("sold");
            assert("buy"@.len() != "sold"@.len());
        }
        if owned == buy {
            Some(OperationType::Buy)
        } else if owned == sold {
            Some(OperationType::Sold)
        } else {
            None
        }
    }

    pub open spec fn name(self) -> Seq<char> {
        match self {
            OperationType::Buy => "buy"@,
            OperationType::Sold => "sold"@,
        }
    }

    /// The name under which the operation type is stored.
    pub fn to_string(&self) -> (r: String)
        ensures
            r@ == self.name(),
    {
        match self {
            OperationType::Buy => "buy".to_owned(),
            OperationType::Sold => "sold".to_owned(),
        }
    }
}


/// Relies on uuid::Uuid::new_v4: a fresh random identifier, read as its 128
/// bits. Nothing is promised of its value.
#[verifier::external_body]
pub(crate) fn new_id() -> (r: u128) {
    uuid::Uuid::new_v4().as_u128()
}

/// Why a run is refused before any candle is replayed.
#[derive(Clone, Copy, Debug, PartialEq, Eq, Structural)]
pub enum ConfigError {
    /// The lot size is zero.
    InvalidLotSize,
    /// The commission rate is 100% or more.
    InvalidCommission,
    /// The take-profit margin is zero.
    InvalidProfit,
}

/// Why a replay stops without a result.
#[derive(Clone, Copy, Debug, PartialEq, Eq, Structural)]
pub enum ReplayError {
    /// The packet or the attempt is refused.
    Config(ConfigError),
    /// The candle at this index has a zero price or a malformed interval.
    InvalidCandle(usize),
    /// The candle at this index does not begin after the one before it.
    OutOfOrder(usize),
    /// A sale would take the notional or the balance beyond `u64::MAX`.
    BalanceOverflow,
}

/// One replay run: its identifier, the take-profit margin and the commission
/// rate, both in parts per million (`RATE_SCALE`).
#[derive(Clone, Copy, Debug, PartialEq, Eq, Structural)]
pub struct Attempt {
    pub id: u128,
    pub profit: u64,
    pub commission: u64,
}

impl Attempt {
    /// Parameters that a run accepts.
    pub open spec fn valid(self) -> bool {
        self.profit > 0 && self.commission < RATE_SCALE
    }

    /// Creates the record of a new run under a fresh identifier, or says which
    /// parameter is refused.
    pub fn new(profit: u64, commission: u64) -> (r: Result<Attempt, ConfigError>)
        ensures
            r == Err::<Attempt, ConfigError>(ConfigError::InvalidProfit) <==> profit == 0,
            r == Err::<Attempt, ConfigError>(ConfigError::InvalidCommission) <==> (profit > 0
                && commission >= RATE_SCALE),
            r is Ok <==> (profit > 0 && commission < RATE_SCALE),
            r is Ok ==> r->Ok_0.profit == profit && r->Ok_0.commission == commission,
    {
        if profit == 0 {
            return Err(ConfigError::InvalidProfit);
        }
        if commission >= RATE_SCALE {
            return Err(ConfigError::InvalidCommission);
        }
        Ok(Attempt { id: new_id(), profit, commission })
    }
}

/// The simulated position in one instrument: its code, the lot size, the
/// number of shares held (zero when flat), the take-profit price of the open
/// position (zero when flat) and the cash balance in minor units.
#[derive(Clone, Debug)]
pub struct Packet {
    pub security: String,
    pub min_count: u64,
    pub purchased: u64,
    pub profit: u128,
    pub balance: u64,
}

impl Packet {
    /// A packet whose lot size is usable.
    pub open spec fn valid(self) -> bool {
        self.min_count > 0
    }

    /// A flat packet with the given cash balance, or an error when the lot size
    /// is zero.
    pub fn new(security: &str, min_count: u64, balance: u64) -> (r: Result<Packet, ConfigError>)
        ensures
            r is Err <==> min_count == 0,
            r is Err ==> r->Err_0 == ConfigError::InvalidLotSize,
            r is Ok ==> ({
                let p = r->Ok_0;
                &&& p.security@ == security@
                &&& p.min_count == min_count
                &&& p.purchased == 0
                &&& p.profit == 0
                &&& p.balance == balance
            }),
    {
        if min_count == 0 {
            return Err(ConfigError::InvalidLotSize);
        }
        Ok(Packet { security: security.to_owned(), min_count, purchased: 0, profit: 0, balance })
    }
}

/// One ledger entry. `prev` is the identifier of the entry appended just before
/// it in the same run, or `None` for the first one.
#[derive(Clone, Debug)]
pub struct Operation {
    pub id: u128,
    pub attempt: u128,
    pub operation_type: OperationType,
    pub security: String,
    pub count: u64,
    pub price: u64,
    pub commission: u64,
    pub time_at: Moment,
    pub sum_before: u64,
    pub sum_after: u64,
    pub prev: Option<u128>,
}

impl Operation {
    /// The entry with its identifier and back-reference left out: what a run
    /// determines of it.
    pub open spec fn unlinked(self) -> Operation {
        Operation { id: 0, prev: None, ..self }
    }
}

} // verus!
