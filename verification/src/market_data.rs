use vstd::prelude::*;

verus! {

/// One bar of market data.
pub struct MarketData {
    pub low: i32,
    pub high: i32,
    pub open: i32,
    pub close: i32,
    pub volume: i64,
    pub date: String,
}

/// A bar series as parallel series, one entry per bar in each.
pub struct MarketDataResult {
    pub lows: Vec<i32>,
    pub highs: Vec<i32>,
    pub opens: Vec<i32>,
    pub closes: Vec<i32>,
    pub volumes: Vec<i64>,
    pub dates: Vec<String>,
}

/// Whether `columns` hold the bars of `rows`, field by field and in order.
pub open spec fn is_columns_of(columns: MarketDataResult, rows: Seq<MarketData>) -> bool {
    &&& columns.lows@.len() == rows.len()
    &&& columns.highs@.len() == rows.len()
    &&& columns.opens@.len() == rows.len()
    &&& columns.closes@.len() == rows.len()
    &&& columns.volumes@.len() == rows.len()
    &&& columns.dates@.len() == rows.len()
    &&& forall|i: int|
        #![trigger rows[i]]
        0 <= i < rows.len() ==> {
            &&& columns.lows@[i] == rows[i].low
            &&& columns.highs@[i] == rows[i].high
            &&& columns.opens@[i] == rows[i].open
            &&& columns.closes@[i] == rows[i].close
            &&& columns.volumes@[i] == rows[i].volume
            &&& columns.dates@[i]@ == rows[i].date@
        }
}

/// Splits a sequence of bars into parallel series.
pub fn process_market_data(market_data: Vec<MarketData>) -> (columns: MarketDataResult)
    ensures
        is_columns_of(columns, market_data@),
{
    let mut lows: Vec<i32> = Vec::new();
    let mut highs: Vec<i32> = Vec::new();
    let mut opens: Vec<i32> = Vec::new();
    let mut closes: Vec<i32> = Vec::new();
    let mut volumes: Vec<i64> = Vec::new();
    let mut dates: Vec<String> = Vec::new();
    let mut i: usize = 0;
    while i < market_data.len()
        invariant
            i <= market_data.len(),
            lows@.len() == i,
            highs@.len() == i,
            opens@.len() == i,
            closes@.len() == i,
            volumes@.len() == i,
            dates@.len() == i,
            forall|k: int|
                #![trigger market_data@[k]]
                0 <= k < i ==> {
                    &&& lows@[k] == market_data@[k].low
                    &&& highs@[k] == market_data@[k].high
                    &&& opens@[k] == market_data@[k].open
                    &&& closes@[k] == market_data@[k].close
                    &&& volumes@[k] == market_data@[k].volume
                    &&& dates@[k]@ == market_data@[k].date@
                },
        decreases market_data.len() - i,
    {
        let item = &market_data[i];
        lows.push(item.low);
        highs.push(item.high);
        opens.push(item.open);
        closes.push(item.close);
        volumes.push(item.volume);
        dates.push(item.date.clone());
        i = i + 1;
    }
    MarketDataResult { lows, highs, opens, closes, volumes, dates }
}

} // verus!
