//! Two layouts of an edge list: one record per edge, or one column per field.

use vstd::prelude::*;
use vstd::std_specs::convert::FromSpecImpl;
use crate::rate::Rate;

verus! {

#[derive(Debug, Clone, PartialEq)]
pub struct EdgeAoS {
    pub from: usize,
    pub to: usize,
    pub rate: Rate,
}

impl EdgeAoS {
    #[inline]
    pub fn new(from: usize, to: usize, rate: Rate) -> (edge: Self)
        ensures
            edge.from == from,
            edge.to == to,
            edge.rate == rate,
    {
        Self { from, to, rate }
    }
}

#[derive(Debug, Clone, PartialEq)]
pub struct EdgeSoA {
    pub from: Vec<usize>,
    pub to: Vec<usize>,
    pub rate: Vec<Rate>,
}

/// The length of the shortest of three columns.
pub open spec fn shortest(from: Seq<usize>, to: Seq<usize>, rate: Seq<Rate>) -> nat {
    if from.len() <= to.len() && from.len() <= rate.len() {
        from.len()
    } else if to.len() <= rate.len() {
        to.len()
    } else {
        rate.len()
    }
}

/// The edges that three columns hold: row `i` is made of entry `i` of each,
/// as far as the shortest column goes.
pub open spec fn rows(from: Seq<usize>, to: Seq<usize>, rate: Seq<Rate>) -> Seq<
    (usize, usize, Rate),
> {
    Seq::new(shortest(from, to, rate), |i: int| (from[i], to[i], rate[i]))
}

/// The record of a row.
pub open spec fn as_record(row: (usize, usize, Rate)) -> EdgeAoS {
    EdgeAoS { from: row.0, to: row.1, rate: row.2 }
}

/// The row of a record.
pub open spec fn as_row(edge: EdgeAoS) -> (usize, usize, Rate) {
    (edge.from, edge.to, edge.rate)
}

impl View for EdgeSoA {
    type V = Seq<(usize, usize, Rate)>;

    /// The rows of the columns.
    open spec fn view(&self) -> Seq<(usize, usize, Rate)> {
        rows(self.from@, self.to@, self.rate@)
    }
}

impl EdgeSoA {
    /// The three columns have one length.
    pub open spec fn well_formed(&self) -> bool {
        self.from@.len() == self.to@.len() && self.to@.len() == self.rate@.len()
    }

    #[inline]
    pub fn with_capacity(cap: usize) -> (soa: Self)
        ensures
            soa.well_formed(),
            soa@.len() == 0,
    {
        Self {
            from: Vec::with_capacity(cap),
            to: Vec::with_capacity(cap),
            rate: Vec::with_capacity(cap),
        }
    }

    /// The length of the `from` column, which in a well-formed value is the
    /// number of edges.
    #[inline]
    pub fn len(&self) -> (n: usize)
        ensures
            n == self.from@.len(),
            self.well_formed() ==> n == self@.len(),
    {
        self.from.len()
    }

    #[inline]
    pub fn is_empty(&self) -> (empty: bool)
        ensures
            empty == (self.from@.len() == 0),
            self.well_formed() ==> empty == (self@.len() == 0),
    {
        self.from.len() == 0
    }

    #[inline]
    pub fn push(&mut self, from: usize, to: usize, rate: Rate)
        ensures
            final(self).from@ == old(self).from@.push(from),
            final(self).to@ == old(self).to@.push(to),
            final(self).rate@ == old(self).rate@.push(rate),
            old(self).well_formed() ==> final(self).well_formed() && final(self)@ == old(
                self,
            )@.push((from, to, rate)),
    {
        self.from.push(from);
        self.to.push(to);
        self.rate.push(rate);
        assert(old(self).well_formed() ==> self@ =~= old(self)@.push((from, to, rate)));
    }

    /// The edges in order, each as (from, to, rate).
    pub fn iter(&self) -> (items: Vec<(usize, usize, Rate)>)
        ensures
            items@ == self@,
    {
        let mut count = self.from.len();
        if self.to.len() < count {
            count = self.to.len();
        }
        if self.rate.len() < count {
            count = self.rate.len();
        }
        let mut items: Vec<(usize, usize, Rate)> = Vec::with_capacity(count);
        let mut i: usize = 0;
        while i < count
            invariant
                count == self@.len(),
                count <= self.from@.len(),
                count <= self.to@.len(),
                count <= self.rate@.len(),
                i <= count,
                items@ == self@.subrange(0, i as int),
            decreases count - i,
        {
            items.push((self.from[i], self.to[i], self.rate[i]));
            i += 1;
            assert(items@ =~= self@.subrange(0, i as int));
        }
        assert(self@.subrange(0, i as int) =~= self@);
        items
    }

    /// The columns of a list of records.
    pub fn from_records(edges: &[EdgeAoS]) -> (soa: Self)
        ensures
            soa.well_formed(),
            soa@ == edges@.map_values(|edge: EdgeAoS| as_row(edge)),
    {
        let mut soa = EdgeSoA::with_capacity(edges.len());
        let mut i: usize = 0;
        while i < edges.len()
            invariant
                soa.well_formed(),
                i <= edges@.len(),
                soa@ == edges@.subrange(0, i as int).map_values(|edge: EdgeAoS| as_row(edge)),
            decreases edges@.len() - i,
        {
            let edge = &edges[i];
            soa.push(edge.from, edge.to, edge.rate);
            i += 1;
            assert(soa@ =~= edges@.subrange(0, i as int).map_values(
                |edge: EdgeAoS| as_row(edge),
            ));
        }
        assert(edges@.subrange(0, i as int) =~= edges@);
        soa
    }

    /// The records of the columns.
    pub fn into_records(self) -> (edges: Vec<EdgeAoS>)
        ensures
            edges@ == self@.map_values(|row: (usize, usize, Rate)| as_record(row)),
    {
        let items = self.iter();
        let mut edges: Vec<EdgeAoS> = Vec::with_capacity(items.len());
        let mut i: usize = 0;
        while i < items.len()
            invariant
                items@ == self@,
                i <= items@.len(),
                edges@ == self@.subrange(0, i as int).map_values(
                    |row: (usize, usize, Rate)| as_record(row),
                ),
            decreases items@.len() - i,
        {
            let row = items[i];
            edges.push(EdgeAoS { from: row.0, to: row.1, rate: row.2 });
            i += 1;
            assert(edges@ =~= self@.subrange(0, i as int).map_values(
                |row: (usize, usize, Rate)| as_record(row),
            ));
        }
        assert(self@.subrange(0, i as int) =~= self@);
        edges
    }
}

impl From<Vec<EdgeAoS>> for EdgeSoA {
    /// The columns of a list of records: `from_records` states what they hold.
    fn from(edges: Vec<EdgeAoS>) -> (soa: Self) {
        EdgeSoA::from_records(edges.as_slice())
    }
}

impl FromSpecImpl<Vec<EdgeAoS>> for EdgeSoA {
    open spec fn obeys_from_spec() -> bool {
        false
    }

    open spec fn from_spec(edges: Vec<EdgeAoS>) -> Self {
        arbitrary()
    }
}

impl From<&[EdgeAoS]> for EdgeSoA {
    /// The columns of a list of records: `from_records` states what they hold.
    fn from(edges: &[EdgeAoS]) -> (soa: Self) {
        EdgeSoA::from_records(edges)
    }
}

impl FromSpecImpl<&[EdgeAoS]> for EdgeSoA {
    open spec fn obeys_from_spec() -> bool {
        false
    }

    open spec fn from_spec(edges: &[EdgeAoS]) -> Self {
        arbitrary()
    }
}

impl From<EdgeSoA> for Vec<EdgeAoS> {
    /// The records of the columns: `into_records` states what they hold.
    fn from(soa: EdgeSoA) -> (edges: Self) {
        soa.into_records()
    }
}

impl FromSpecImpl<EdgeSoA> for Vec<EdgeAoS> {
    open spec fn obeys_from_spec() -> bool {
        false
    }

    open spec fn from_spec(soa: EdgeSoA) -> Self {
        arbitrary()
    }
}

/// Records turned into columns and back are the records.
pub proof fn lemma_layout_round_trip(edges: Seq<EdgeAoS>)
    ensures
        edges.map_values(|edge: EdgeAoS| as_row(edge)).map_values(
            |row: (usize, usize, Rate)| as_record(row),
        ) == edges,
{
    assert(edges.map_values(|edge: EdgeAoS| as_row(edge)).map_values(
        |row: (usize, usize, Rate)| as_record(row),
    ) =~= edges);
}

} // verus!
