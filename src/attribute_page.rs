use vstd::prelude::*;
use crate::attribute::{
    aggregate_attributes, attribute_view_ids, distinct_attribute_ids, lemma_attribute_grouping, options_of, QueryResult,
};
use crate::catalog::{attribute_ids, distinct, option_rows, Catalog};
use crate::find_attribute_usecase::options_of_attribute;
use crate::model::{Attribute, AttributeOptionRow, RefView, Uuid};
use crate::pagination::{page_of, PageWindow};

verus! {

/// The rows that pair attribute `a` with each of its options, in table order.
pub open spec fn option_join(a: Attribute, opts: Seq<AttributeOptionRow>) -> Seq<QueryResult>
    decreases opts.len(),
{
    if opts.len() == 0 {
        Seq::empty()
    } else {
        let prev = option_join(a, opts.drop_last());
        let o = opts.last();
        if o.attribute_id == a.id {
            prev.push(
                QueryResult {
                    id: a.id,
                    name: a.name,
                    attribute_option_id: Some(o.id),
                    attribute_option_value: Some(o.value),
                },
            )
        } else {
            prev
        }
    }
}

/// The left join of one attribute with the options: its option rows, or one
/// row with empty option columns where it has none.
pub open spec fn rows_for_attribute(a: Attribute, opts: Seq<AttributeOptionRow>) -> Seq<QueryResult> {
    if option_join(a, opts).len() == 0 {
        seq![QueryResult { id: a.id, name: a.name, attribute_option_id: None, attribute_option_value: None }]
    } else {
        option_join(a, opts)
    }
}

/// The left join of attributes with the options, attribute by attribute.
pub open spec fn attribute_join(attrs: Seq<Attribute>, opts: Seq<AttributeOptionRow>) -> Seq<QueryResult>
    decreases attrs.len(),
{
    if attrs.len() == 0 {
        Seq::empty()
    } else {
        attribute_join(attrs.drop_last(), opts) + rows_for_attribute(attrs.last(), opts)
    }
}

proof fn lemma_options_of_concat(x: Seq<QueryResult>, y: Seq<QueryResult>, id: Uuid)
    ensures
        options_of(x + y, id) == options_of(x, id) + options_of(y, id),
    decreases y.len(),
{
    if y.len() == 0 {
        assert(x + y =~= x);
        assert(options_of(x, id) + options_of(y, id) =~= options_of(x, id));
    } else {
        lemma_options_of_concat(x, y.drop_last(), id);
        assert((x + y).drop_last() =~= x + y.drop_last());
        assert((x + y).last() == y.last());
        let tail = options_of(y.drop_last(), id);
        if y.last().id == id && crate::attribute::row_option(y.last()) is Some {
            assert(options_of(x, id) + tail.push(crate::attribute::row_option(y.last())->0)
                =~= (options_of(x, id) + tail).push(crate::attribute::row_option(y.last())->0));
        }
    }
}

proof fn lemma_option_join_options(a: Attribute, opts: Seq<AttributeOptionRow>, id: Uuid)
    ensures
        options_of(option_join(a, opts), id) == (if a.id == id {
            options_of_attribute(option_rows(opts), id)
        } else {
            Seq::<RefView>::empty()
        }),
        forall|i: int| 0 <= i < option_join(a, opts).len() ==> (#[trigger] option_join(a, opts)[i]).id == a.id,
    decreases opts.len(),
{
    if opts.len() > 0 {
        lemma_option_join_options(a, opts.drop_last(), id);
        assert(option_rows(opts).drop_last() =~= option_rows(opts.drop_last()));
        assert(option_rows(opts).last() == opts.last()@);
        let prev = option_join(a, opts.drop_last());
        let o = opts.last();
        if o.attribute_id == a.id {
            let row = QueryResult { id: a.id, name: a.name, attribute_option_id: Some(o.id), attribute_option_value: Some(o.value) };
            assert(prev.push(row).drop_last() =~= prev);
            assert(prev.push(row).last() == row);
        }
    }
}

proof fn lemma_rows_for_attribute(a: Attribute, opts: Seq<AttributeOptionRow>, id: Uuid)
    ensures
        options_of(rows_for_attribute(a, opts), id) == (if a.id == id {
            options_of_attribute(option_rows(opts), id)
        } else {
            Seq::<RefView>::empty()
        }),
        rows_for_attribute(a, opts).len() > 0,
        forall|i: int| 0 <= i < rows_for_attribute(a, opts).len() ==> (#[trigger] rows_for_attribute(a, opts)[i]).id == a.id,
{
    lemma_option_join_options(a, opts, id);
    if option_join(a, opts).len() == 0 {
        let bare = seq![QueryResult { id: a.id, name: a.name, attribute_option_id: None, attribute_option_value: None }];
        assert(bare.drop_last() =~= Seq::<QueryResult>::empty());
        assert(options_of(Seq::<QueryResult>::empty(), id) == Seq::<RefView>::empty());
        assert(options_of(bare, id) == Seq::<RefView>::empty());
    }
}

proof fn lemma_distinct_ids_of_block(x: Seq<QueryResult>, y: Seq<QueryResult>, c: Uuid)
    requires
        y.len() > 0,
        forall|i: int| 0 <= i < y.len() ==> (#[trigger] y[i]).id == c,
        !distinct_attribute_ids(x).contains(c),
    ensures
        distinct_attribute_ids(x + y) == distinct_attribute_ids(x).push(c),
    decreases y.len(),
{
    assert((x + y).drop_last() =~= x + y.drop_last());
    assert((x + y).last() == y.last());
    if y.len() == 1 {
        assert(x + y.drop_last() =~= x);
    } else {
        lemma_distinct_ids_of_block(x, y.drop_last(), c);
        assert(distinct_attribute_ids(x).push(c).contains(c)) by {
            assert(distinct_attribute_ids(x).push(c)[distinct_attribute_ids(x).len() as int] == c);
        }
    }
}

proof fn lemma_attribute_join(attrs: Seq<Attribute>, opts: Seq<AttributeOptionRow>)
    requires
        distinct(attribute_ids(attrs)),
    ensures
        distinct_attribute_ids(attribute_join(attrs, opts)) == attribute_ids(attrs),
        forall|id: Uuid| #[trigger] options_of(attribute_join(attrs, opts), id) == (if attribute_ids(attrs).contains(id) {
            options_of_attribute(option_rows(opts), id)
        } else {
            Seq::<RefView>::empty()
        }),
    decreases attrs.len(),
{
    if attrs.len() == 0 {
        assert(attribute_ids(attrs) =~= Seq::<Uuid>::empty());
    } else {
        let prev = attrs.drop_last();
        let a = attrs.last();
        assert(attribute_ids(prev) =~= attribute_ids(attrs).drop_last());
        assert(attribute_ids(attrs) =~= attribute_ids(prev).push(a.id));
        assert(distinct(attribute_ids(prev)));
        assert(!attribute_ids(prev).contains(a.id)) by {
            if attribute_ids(prev).contains(a.id) {
                let w = choose|w: int| 0 <= w < attribute_ids(prev).len() && attribute_ids(prev)[w] == a.id;
                assert(attribute_ids(attrs)[w] == attribute_ids(attrs)[prev.len() as int]);
            }
        }
        lemma_attribute_join(prev, opts);
        let head = attribute_join(prev, opts);
        let block = rows_for_attribute(a, opts);
        lemma_rows_for_attribute(a, opts, a.id);
        lemma_distinct_ids_of_block(head, block, a.id);
        assert forall|id: Uuid| #[trigger] options_of(attribute_join(attrs, opts), id) == (if attribute_ids(attrs).contains(id) {
            options_of_attribute(option_rows(opts), id)
        } else {
            Seq::<RefView>::empty()
        }) by {
            lemma_options_of_concat(head, block, id);
            lemma_rows_for_attribute(a, opts, id);
            if id == a.id {
                assert(attribute_ids(attrs)[prev.len() as int] == id);
                assert(Seq::<RefView>::empty() + options_of_attribute(option_rows(opts), id)
                    =~= options_of_attribute(option_rows(opts), id));
            } else {
                assert(attribute_ids(attrs).contains(id) == attribute_ids(prev).contains(id)) by {
                    if attribute_ids(attrs).contains(id) {
                        let w = choose|w: int| 0 <= w < attribute_ids(attrs).len() && attribute_ids(attrs)[w] == id;
                        assert(attribute_ids(prev)[w] == id);
                    }
                    if attribute_ids(prev).contains(id) {
                        let w = choose|w: int| 0 <= w < attribute_ids(prev).len() && attribute_ids(prev)[w] == id;
                        assert(attribute_ids(attrs)[w] == id);
                    }
                }
                assert(options_of(head, id) + Seq::<RefView>::empty() =~= options_of(head, id));
            }
        }
    }
}

/// Paging attributes before joining their options keeps each option set
/// whole: grouping the joined rows of a set of attributes with distinct ids
/// gives those attributes, in order, each with all of its options.
pub proof fn lemma_page_then_join(attrs: Seq<Attribute>, opts: Seq<AttributeOptionRow>)
    requires
        distinct(attribute_ids(attrs)),
    ensures
        attribute_view_ids(aggregate_attributes(attribute_join(attrs, opts))) == attribute_ids(attrs),
        forall|k: int| 0 <= k < attrs.len() ==> (#[trigger] aggregate_attributes(attribute_join(attrs, opts))[k]).attribute_options
            == options_of_attribute(option_rows(opts), attrs[k].id),
{
    let rows = attribute_join(attrs, opts);
    lemma_attribute_join(attrs, opts);
    lemma_attribute_grouping(rows);
    let agg = aggregate_attributes(rows);
    assert forall|k: int| 0 <= k < attrs.len() implies (#[trigger] agg[k]).attribute_options
        == options_of_attribute(option_rows(opts), attrs[k].id) by {
        assert(attribute_view_ids(agg).len() == agg.len());
        assert(attribute_ids(attrs).len() == attrs.len());
        assert(attribute_view_ids(agg)[k] == attribute_ids(attrs)[k]);
        assert(agg[k].id == attrs[k].id);
        assert(attribute_ids(attrs).contains(attrs[k].id)) by {
            assert(attribute_ids(attrs)[k] == attrs[k].id);
        }
        assert(options_of(rows, agg[k].id) == options_of_attribute(option_rows(opts), attrs[k].id));
    }
}

impl Catalog {
    /// The rows of one page of the attribute listing: the attributes that the
    /// window covers, in table order, each left-joined with its options.
    pub fn attribute_page_rows(&self, window: PageWindow) -> (r: Vec<QueryResult>)
        ensures
            r@ == attribute_join(page_of(self.attributes@, window), self.attribute_options@),
    {
        let len = self.attributes.len();
        let start: usize = if (window.offset as u128) < (len as u128) { window.offset as usize } else { len };
        let end: usize = if (window.offset as u128) + (window.limit as u128) < (len as u128) {
            (window.offset + window.limit) as usize
        } else {
            len
        };
        let ghost page = page_of(self.attributes@, window);
        assert(page == self.attributes@.subrange(start as int, end as int));
        let mut out: Vec<QueryResult> = Vec::new();
        let mut i: usize = start;
        while i < end
            invariant
                start <= i <= end,
                end <= self.attributes@.len(),
                page == self.attributes@.subrange(start as int, end as int),
                out@ == attribute_join(self.attributes@.subrange(start as int, i as int), self.attribute_options@),
            decreases end - i,
        {
            let a = &self.attributes[i];
            let mut mine: Vec<QueryResult> = Vec::new();
            let mut j: usize = 0;
            while j < self.attribute_options.len()
                invariant
                    j <= self.attribute_options@.len(),
                    mine@ == option_join(*a, self.attribute_options@.take(j as int)),
                decreases self.attribute_options@.len() - j,
            {
                let o = &self.attribute_options[j];
                proof {
                    assert(self.attribute_options@.take(j as int + 1).drop_last() =~= self.attribute_options@.take(j as int));
                    assert(self.attribute_options@.take(j as int + 1).last() == *o);
                }
                if o.attribute_id == a.id {
                    mine.push(QueryResult {
                        id: a.id,
                        name: a.name.clone(),
                        attribute_option_id: Some(o.id),
                        attribute_option_value: Some(o.value.clone()),
                    });
                }
                j += 1;
            }
            proof {
                assert(self.attribute_options@.take(self.attribute_options@.len() as int) =~= self.attribute_options@);
                assert(self.attributes@.subrange(start as int, i as int + 1).drop_last()
                    =~= self.attributes@.subrange(start as int, i as int));
                assert(self.attributes@.subrange(start as int, i as int + 1).last() == *a);
            }
            let ghost before = out@;
            if mine.len() == 0 {
                out.push(QueryResult { id: a.id, name: a.name.clone(), attribute_option_id: None, attribute_option_value: None });
                proof {
                    assert(out@ =~= before + rows_for_attribute(*a, self.attribute_options@));
                }
            } else {
                out.append(&mut mine);
                proof {
                    assert(out@ =~= before + rows_for_attribute(*a, self.attribute_options@));
                }
            }
            i += 1;
        }
        out
    }
}

} // verus!
