use vstd::prelude::*;
use crate::store::copy_opt_string;

verus! {

#[derive(Clone, Copy, Debug, PartialEq, Eq, Structural)]
pub enum EmailSortColumn {
    Date,
}

impl EmailSortColumn {
    /// The store column that this sort orders by.
    pub fn to_sql_column(&self) -> (r: &'static str)
        ensures
            r@ == "received_at"@,
    {
        match self {
            Self::Date => "received_at",
        }
    }
}

#[derive(Clone, Copy, Debug, PartialEq, Eq, Structural)]
pub struct EmailSort {
    pub column: EmailSortColumn,
    pub asc: bool,
}

/// A limit on the number of results, never zero.
#[derive(Clone, Copy, Debug)]
pub struct NonZeroLimit {
    value: usize,
}

impl NonZeroLimit {
    #[verifier::type_invariant]
    spec fn positive(&self) -> bool {
        self.value > 0
    }

    pub closed spec fn spec_get(&self) -> usize {
        self.value
    }

    /// A limit of `n` results; none for zero.
    pub fn new(n: usize) -> (r: Option<NonZeroLimit>)
        ensures
            r is Some <==> n > 0,
            r matches Some(l) ==> l.spec_get() == n,
    {
        if n > 0 {
            Some(NonZeroLimit { value: n })
        } else {
            None
        }
    }

    pub fn get(&self) -> (r: usize)
        ensures
            r == self.spec_get(),
            r > 0,
    {
        proof {
            use_type_invariant(self);
        }
        self.value
    }
}

/// The number that an optional limit puts on the wire.
pub open spec fn limit_value(l: Option<NonZeroLimit>) -> Option<usize> {
    match l {
        Some(n) => Some(n.spec_get()),
        None => None,
    }
}

/// A query of a client over the server's emails.
#[derive(Clone, Debug)]
pub struct EmailQuery {
    pub anchor_id: Option<String>,
    pub mailbox_id: Option<String>,
    pub search_keyword: Option<String>,
    pub sorts: Vec<EmailSort>,
    /// At most this many ids.
    pub limit: Option<NonZeroLimit>,
}

/// A query over the stored emails.
#[derive(Clone, Debug)]
pub struct EmailDbQuery {
    pub mailbox_id: Option<String>,
    pub search_keyword: Option<String>,
    pub sorts: Vec<EmailSort>,
    pub limit: usize,
    pub offset: usize,
}

/// A filter condition of a server email query.
#[derive(Clone, Debug)]
pub enum EmailFilter {
    InMailbox { value: String },
    Text { value: String },
}

/// The server property that a sort orders by.
#[derive(Clone, Copy, Debug, PartialEq, Eq, Structural)]
pub enum SortProperty {
    ReceivedAt,
}

/// A server email query, as it is put on the wire.
#[derive(Clone, Debug)]
pub struct JmapEmailQuery {
    pub calculate_total: bool,
    pub limit: Option<usize>,
    /// All conditions must hold; none means no filter.
    pub filters: Vec<EmailFilter>,
    /// Each sort with whether it is ascending.
    pub sorts: Vec<(SortProperty, bool)>,
    pub anchor: Option<String>,
}

/// The server query for a client query: the mailbox filter first, then the
/// text filter; every sort by date; the total is always counted.
pub fn build_email_query(query: &EmailQuery) -> (r: JmapEmailQuery)
    ensures
        r.calculate_total,
        r.limit == limit_value(query.limit),
        r.limit matches Some(n) ==> n > 0,
        r.anchor == query.anchor_id,
        r.sorts@.len() == query.sorts@.len(),
        forall|i: int|
            0 <= i < r.sorts@.len() ==> (#[trigger] r.sorts@[i]) == (
            SortProperty::ReceivedAt,
            query.sorts@[i].asc,
        ),
        r.filters@.len() == (if query.mailbox_id is Some {
            1int
        } else {
            0
        }) + (if query.search_keyword is Some {
            1int
        } else {
            0
        }),
        query.mailbox_id matches Some(m) ==> r.filters@[0] == (EmailFilter::InMailbox { value: m }),
        query.search_keyword matches Some(k) ==> r.filters@.last() == (EmailFilter::Text {
            value: k,
        }),
{
    let mut filters: Vec<EmailFilter> = Vec::new();
    if let Some(m) = &query.mailbox_id {
        filters.push(EmailFilter::InMailbox { value: m.clone() });
    }
    if let Some(k) = &query.search_keyword {
        filters.push(EmailFilter::Text { value: k.clone() });
    }
    let mut sorts: Vec<(SortProperty, bool)> = Vec::new();
    let mut i: usize = 0;
    while i < query.sorts.len()
        invariant
            i <= query.sorts@.len(),
            sorts@.len() == i,
            forall|j: int|
                0 <= j < i ==> (#[trigger] sorts@[j]) == (SortProperty::ReceivedAt, query.sorts@[j].asc),
        decreases query.sorts@.len() - i,
    {
        let s = query.sorts[i];
        match s.column {
            EmailSortColumn::Date => sorts.push((SortProperty::ReceivedAt, s.asc)),
        }
        i = i + 1;
    }
    JmapEmailQuery {
        calculate_total: true,
        limit: match query.limit {
            Some(l) => Some(l.get()),
            None => None,
        },
        filters,
        sorts,
        anchor: copy_opt_string(&query.anchor_id),
    }
}

/// The text of one ordering term.
pub open spec fn order_term(column: Seq<char>, asc: bool) -> Seq<char> {
    if asc {
        column
    } else {
        column + " DESC"@
    }
}

/// The ordering of a stored-email query: each sort in turn, then the
/// identifier, ascending, so that the order is total.
pub open spec fn order_clause(sorts: Seq<EmailSort>) -> Seq<char>
    decreases sorts.len(),
{
    if sorts.len() == 0 {
        "id"@
    } else {
        order_term("received_at"@, sorts[0].asc) + ", "@ + order_clause(sorts.drop_first())
    }
}

pub fn sort_clause(sorts: &Vec<EmailSort>) -> (r: String)
    ensures
        r@ == order_clause(sorts@),
{
    let mut i: usize = sorts.len();
    let mut tail = String::from_str("id");
    proof {
        reveal_strlit("id");
    }
    while i > 0
        invariant
            i <= sorts@.len(),
            tail@ == order_clause(sorts@.subrange(i as int, sorts@.len() as int)),
        decreases i,
    {
        i = i - 1;
        let s = sorts[i];
        let mut term = String::from_str(s.column.to_sql_column());
        if !s.asc {
            term.append(" DESC");
            proof {
                reveal_strlit(" DESC");
            }
        }
        term.append(", ");
        term.append(tail.as_str());
        proof {
            reveal_strlit(", ");
            let sub = sorts@.subrange(i as int, sorts@.len() as int);
            assert(sub[0] == s);
            assert(sub.drop_first() =~= sorts@.subrange(i + 1, sorts@.len() as int));
        }
        tail = term;
    }
    proof {
        assert(sorts@.subrange(0, sorts@.len() as int) =~= sorts@);
    }
    tail
}

} // verus!
