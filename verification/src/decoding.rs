//! Which document a flattened representation begins with, and why there is
//! at most one.

use crate::flattened::{lemma_streams_equal, Streams};
use crate::tag::Tag;
use crate::value::JsonTree;
use vstd::prelude::*;

verus! {

/// `tree` is the document at the head of `streams`: its walk begins each of
/// the three sequences.
pub open spec fn heads(tree: JsonTree, streams: Streams) -> bool {
    tree.flattened().is_prefix_of(streams)
}

/// The document at the head of `streams`, where there is one.
pub open spec fn leading(streams: Streams) -> Option<JsonTree> {
    if exists|t: JsonTree| heads(t, streams) {
        Some(choose|t: JsonTree| heads(t, streams))
    } else {
        None
    }
}

/// `value` is what reconstruction makes of `streams`: the document at their
/// head, read as nested mappings.
pub open spec fn reads_as(streams: Streams, value: JsonTree) -> bool {
    leading(streams) matches Some(tree) && value == tree.normalized()
}

/// The tag that the walk of `tree` begins with.
pub open spec fn opening_tag(tree: JsonTree) -> Tag {
    match tree {
        JsonTree::Null => Tag::Null,
        JsonTree::Bool(b) => if b {
            Tag::True
        } else {
            Tag::False
        },
        JsonTree::Number(_) => Tag::Number,
        JsonTree::String(_) => Tag::String,
        JsonTree::Array(_) => Tag::StartArray,
        JsonTree::Object(_) => Tag::StartObject,
    }
}

/// A sequence begins with `x + y` exactly when it begins with `x` and goes
/// on with `y`.
pub proof fn lemma_seq_prefix_split<A>(x: Seq<A>, y: Seq<A>, z: Seq<A>)
    ensures
        (x + y).is_prefix_of(z) <==> x.is_prefix_of(z) && y.is_prefix_of(z.skip(x.len() as int)),
{
    if (x + y).is_prefix_of(z) {
        assert forall|i: int| 0 <= i < x.len() implies x[i] == z[i] by {
            assert((x + y)[i] == z.subrange(0, (x + y).len() as int)[i]);
        }
        assert(x =~= z.subrange(0, x.len() as int));
        assert forall|i: int| 0 <= i < y.len() implies y[i] == z.skip(x.len() as int)[i] by {
            assert((x + y)[x.len() + i] == z.subrange(0, (x + y).len() as int)[x.len() + i]);
        }
        assert(y =~= z.skip(x.len() as int).subrange(0, y.len() as int));
    }
    if x.is_prefix_of(z) && y.is_prefix_of(z.skip(x.len() as int)) {
        assert forall|i: int| 0 <= i < (x + y).len() implies (x + y)[i] == z[i] by {
            if i < x.len() {
                assert(x[i] == z.subrange(0, x.len() as int)[i]);
            } else {
                assert(y[i - x.len()] == z.skip(x.len() as int).subrange(0, y.len() as int)[i
                    - x.len()]);
            }
        }
        assert((x + y) =~= z.subrange(0, (x + y).len() as int));
    }
}

/// Skipping twice is skipping once by the sum.
pub proof fn lemma_seq_skip_skip<A>(z: Seq<A>, n: nat, m: nat)
    requires
        n + m <= z.len(),
    ensures
        z.skip(n as int).skip(m as int) == z.skip((n + m) as int),
{
    assert(z.skip(n as int).skip(m as int) =~= z.skip((n + m) as int));
}

impl Streams {
    /// A model begins with `a.concat(b)` exactly when it begins with `a` and
    /// goes on with `b`.
    pub proof fn lemma_prefix_split(self, a: Streams, b: Streams)
        ensures
            a.concat(b).is_prefix_of(self) <==> a.is_prefix_of(self) && b.is_prefix_of(
                self.after(a),
            ),
            a.concat(b).is_prefix_of(self) ==> self.after(a).after(b) == self.after(a.concat(b)),
    {
        lemma_seq_prefix_split(a.tags, b.tags, self.tags);
        lemma_seq_prefix_split(a.strings, b.strings, self.strings);
        lemma_seq_prefix_split(a.numbers, b.numbers, self.numbers);
        if a.concat(b).is_prefix_of(self) {
            lemma_seq_skip_skip(self.tags, a.tags.len(), b.tags.len());
            lemma_seq_skip_skip(self.strings, a.strings.len(), b.strings.len());
            lemma_seq_skip_skip(self.numbers, a.numbers.len(), b.numbers.len());
        }
    }

    /// Being a prefix is transitive, and a model heads what begins with it.
    pub proof fn lemma_prefix_order(self, b: Streams, c: Streams)
        ensures
            self.is_prefix_of(self.concat(b)),
            self.is_prefix_of(b) && b.is_prefix_of(c) ==> self.is_prefix_of(c),
            self.is_prefix_of(self),
    {
        assert(self.tags =~= (self.tags + b.tags).subrange(0, self.tags.len() as int));
        assert(self.strings =~= (self.strings + b.strings).subrange(
            0,
            self.strings.len() as int,
        ));
        assert(self.numbers =~= (self.numbers + b.numbers).subrange(
            0,
            self.numbers.len() as int,
        ));
        if self.is_prefix_of(b) && b.is_prefix_of(c) {
            assert(self.tags =~= c.tags.subrange(0, self.tags.len() as int)) by {
                assert forall|i: int| 0 <= i < self.tags.len() implies self.tags[i]
                    == c.tags[i] by {
                    assert(self.tags[i] == b.tags.subrange(0, self.tags.len() as int)[i]);
                    assert(b.tags[i] == c.tags.subrange(0, b.tags.len() as int)[i]);
                }
            }
            assert(self.strings =~= c.strings.subrange(0, self.strings.len() as int)) by {
                assert forall|i: int| 0 <= i < self.strings.len() implies self.strings[i]
                    == c.strings[i] by {
                    assert(self.strings[i] == b.strings.subrange(
                        0,
                        self.strings.len() as int,
                    )[i]);
                    assert(b.strings[i] == c.strings.subrange(0, b.strings.len() as int)[i]);
                }
            }
            assert(self.numbers =~= c.numbers.subrange(0, self.numbers.len() as int)) by {
                assert forall|i: int| 0 <= i < self.numbers.len() implies self.numbers[i]
                    == c.numbers[i] by {
                    assert(self.numbers[i] == b.numbers.subrange(
                        0,
                        self.numbers.len() as int,
                    )[i]);
                    assert(b.numbers[i] == c.numbers.subrange(0, b.numbers.len() as int)[i]);
                }
            }
        }
        assert(self.tags =~= self.tags.subrange(0, self.tags.len() as int));
        assert(self.strings =~= self.strings.subrange(0, self.strings.len() as int));
        assert(self.numbers =~= self.numbers.subrange(0, self.numbers.len() as int));
    }

    /// What a model that begins with `a` begins with, tag by tag and payload
    /// by payload.
    pub proof fn lemma_prefix_heads(self, a: Streams)
        requires
            a.is_prefix_of(self),
        ensures
            a.tags.len() > 0 ==> self.tags.len() > 0 && self.tags[0] == a.tags[0],
            a.strings.len() > 0 ==> self.strings.len() > 0 && self.strings[0] == a.strings[0],
            a.numbers.len() > 0 ==> self.numbers.len() > 0 && self.numbers[0] == a.numbers[0],
    {
        if a.tags.len() > 0 {
            assert(a.tags[0] == self.tags.subrange(0, a.tags.len() as int)[0]);
        }
        if a.strings.len() > 0 {
            assert(a.strings[0] == self.strings.subrange(0, a.strings.len() as int)[0]);
        }
        if a.numbers.len() > 0 {
            assert(a.numbers[0] == self.numbers.subrange(0, a.numbers.len() as int)[0]);
        }
    }
}

impl JsonTree {
    /// A walk is never empty and begins with the opening tag of its tree,
    /// which is no `Key` and closes nothing.
    pub proof fn lemma_opening(self)
        ensures
            self.flattened().tags.len() >= 1,
            self.flattened().tags[0] == opening_tag(self),
            opening_tag(self) != Tag::Key,
            opening_tag(self) != Tag::EndArray,
            opening_tag(self) != Tag::EndObject,
    {
    }

    /// The walks of the first `n` items depend on those items only.
    pub proof fn lemma_items_local(a: Seq<JsonTree>, b: Seq<JsonTree>, n: nat)
        requires
            n <= a.len(),
            n <= b.len(),
            forall|j: int| 0 <= j < n ==> a[j] == b[j],
        ensures
            Self::flattened_items(a, n) == Self::flattened_items(b, n),
        decreases n,
    {
        if n > 0 {
            Self::lemma_items_local(a, b, (n - 1) as nat);
        }
    }

    /// The walks of the first `n` members depend on those members only.
    pub proof fn lemma_members_local(
        a: Seq<(Seq<char>, JsonTree)>,
        b: Seq<(Seq<char>, JsonTree)>,
        n: nat,
    )
        requires
            n <= a.len(),
            n <= b.len(),
            forall|j: int| 0 <= j < n ==> a[j] == b[j],
        ensures
            Self::flattened_members(a, n) == Self::flattened_members(b, n),
        decreases n,
    {
        if n > 0 {
            Self::lemma_members_local(a, b, (n - 1) as nat);
        }
    }

    /// The walks of fewer items head the walks of more.
    pub proof fn lemma_items_grow(items: Seq<JsonTree>, n: nat, m: nat)
        requires
            n <= m <= items.len(),
        ensures
            Self::flattened_items(items, n).is_prefix_of(Self::flattened_items(items, m)),
        decreases m,
    {
        let short = Self::flattened_items(items, n);
        if n == m {
            short.lemma_prefix_order(short, short);
        } else {
            let inner = Self::flattened_items(items, (m - 1) as nat);
            Self::lemma_items_grow(items, n, (m - 1) as nat);
            inner.lemma_prefix_order(items[m - 1].flattened(), Streams::empty());
            short.lemma_prefix_order(inner, Self::flattened_items(items, m));
        }
    }

    /// The walks of fewer members head the walks of more.
    pub proof fn lemma_members_grow(members: Seq<(Seq<char>, JsonTree)>, n: nat, m: nat)
        requires
            n <= m <= members.len(),
        ensures
            Self::flattened_members(members, n).is_prefix_of(
                Self::flattened_members(members, m),
            ),
        decreases m,
    {
        let short = Self::flattened_members(members, n);
        if n == m {
            short.lemma_prefix_order(short, short);
        } else {
            let inner = Self::flattened_members(members, (m - 1) as nat);
            let keyed = inner.concat(Streams::text(Tag::Key, members[m - 1].0));
            Self::lemma_members_grow(members, n, (m - 1) as nat);
            inner.lemma_prefix_order(Streams::text(Tag::Key, members[m - 1].0), Streams::empty());
            keyed.lemma_prefix_order(members[m - 1].1.flattened(), Streams::empty());
            inner.lemma_prefix_order(keyed, Self::flattened_members(members, m));
            short.lemma_prefix_order(inner, Self::flattened_members(members, m));
        }
    }

    /// Unique decoding: two documents at the head of the same flattened
    /// representation are the same document.
    pub proof fn lemma_unique_head(self, other: JsonTree, streams: Streams)
        requires
            heads(self, streams),
            heads(other, streams),
        ensures
            self == other,
        decreases self, 0nat,
    {
        self.lemma_opening();
        other.lemma_opening();
        streams.lemma_prefix_heads(self.flattened());
        streams.lemma_prefix_heads(other.flattened());
        match self {
            JsonTree::Array(xs) => {
                let ys = other->Array_0;
                let open = Streams::marker(Tag::StartArray);
                let close = Streams::marker(Tag::EndArray);
                let fx = Self::flattened_items(xs, xs.len());
                let fy = Self::flattened_items(ys, ys.len());
                streams.lemma_prefix_split(open.concat(fx), close);
                streams.lemma_prefix_split(open, fx);
                streams.lemma_prefix_split(open.concat(fy), close);
                streams.lemma_prefix_split(open, fy);
                let inner = streams.after(open);
                inner.lemma_prefix_split(fy, close);
                Self::lemma_items_progress(xs, xs.len(), ys, inner);
                if ys.len() > xs.len() {
                    let rest = inner.after(fx);
                    rest.lemma_prefix_heads(close);
                    rest.lemma_prefix_heads(ys[xs.len() as int].flattened());
                    ys[xs.len() as int].lemma_opening();
                }
                assert(xs =~= ys);
            },
            JsonTree::Object(xs) => {
                let ys = other->Object_0;
                let open = Streams::marker(Tag::StartObject);
                let close = Streams::marker(Tag::EndObject);
                let fx = Self::flattened_members(xs, xs.len());
                let fy = Self::flattened_members(ys, ys.len());
                streams.lemma_prefix_split(open.concat(fx), close);
                streams.lemma_prefix_split(open, fx);
                streams.lemma_prefix_split(open.concat(fy), close);
                streams.lemma_prefix_split(open, fy);
                let inner = streams.after(open);
                inner.lemma_prefix_split(fy, close);
                Self::lemma_members_progress(xs, xs.len(), ys, inner);
                if ys.len() > xs.len() {
                    let rest = inner.after(fx);
                    let next = ys[xs.len() as int];
                    rest.lemma_prefix_heads(close);
                    rest.lemma_prefix_split(Streams::text(Tag::Key, next.0), next.1.flattened());
                    rest.lemma_prefix_heads(Streams::text(Tag::Key, next.0));
                }
                assert(xs =~= ys);
            },
            _ => {},
        }
    }

    /// Two sequences of items whose first `n` walks head the same model
    /// agree in their first `n` items.
    pub proof fn lemma_items_agree(xs: Seq<JsonTree>, ys: Seq<JsonTree>, n: nat, streams: Streams)
        requires
            n <= xs.len(),
            n <= ys.len(),
            Self::flattened_items(xs, n).is_prefix_of(streams),
            Self::flattened_items(ys, n).is_prefix_of(streams),
        ensures
            forall|j: int| 0 <= j < n ==> xs[j] == ys[j],
            Self::flattened_items(xs, n) == Self::flattened_items(ys, n),
        decreases xs, n,
    {
        if n > 0 {
            let gx = Self::flattened_items(xs, (n - 1) as nat);
            let gy = Self::flattened_items(ys, (n - 1) as nat);
            streams.lemma_prefix_split(gx, xs[n - 1].flattened());
            streams.lemma_prefix_split(gy, ys[n - 1].flattened());
            Self::lemma_items_agree(xs, ys, (n - 1) as nat, streams);
            xs[n - 1].lemma_unique_head(ys[n - 1], streams.after(gx));
        }
    }

    /// Two sequences of members whose first `n` walks head the same model
    /// agree in their first `n` members.
    pub proof fn lemma_members_agree(
        xs: Seq<(Seq<char>, JsonTree)>,
        ys: Seq<(Seq<char>, JsonTree)>,
        n: nat,
        streams: Streams,
    )
        requires
            n <= xs.len(),
            n <= ys.len(),
            Self::flattened_members(xs, n).is_prefix_of(streams),
            Self::flattened_members(ys, n).is_prefix_of(streams),
        ensures
            forall|j: int| 0 <= j < n ==> xs[j] == ys[j],
            Self::flattened_members(xs, n) == Self::flattened_members(ys, n),
        decreases xs, n,
    {
        if n > 0 {
            let gx = Self::flattened_members(xs, (n - 1) as nat);
            let gy = Self::flattened_members(ys, (n - 1) as nat);
            let kx = Streams::text(Tag::Key, xs[n - 1].0);
            let ky = Streams::text(Tag::Key, ys[n - 1].0);
            streams.lemma_prefix_split(gx.concat(kx), xs[n - 1].1.flattened());
            streams.lemma_prefix_split(gy.concat(ky), ys[n - 1].1.flattened());
            streams.lemma_prefix_split(gx, kx);
            streams.lemma_prefix_split(gy, ky);
            Self::lemma_members_agree(xs, ys, (n - 1) as nat, streams);
            streams.after(gx).lemma_prefix_heads(kx);
            streams.after(gx).lemma_prefix_heads(ky);
            assert(xs[n - 1].0 == ys[n - 1].0);
            xs[n - 1].1.lemma_unique_head(ys[n - 1].1, streams.after(gx.concat(kx)));
        }
    }

    /// Where the walks of `n` items head a model that the items of an array
    /// and its closing tag head too, the array begins with those items, and
    /// behind them the model goes on with the closing tag or with the next
    /// item of the array.
    pub proof fn lemma_items_progress(
        xs: Seq<JsonTree>,
        n: nat,
        ys: Seq<JsonTree>,
        streams: Streams,
    )
        requires
            n <= xs.len(),
            Self::flattened_items(xs, n).is_prefix_of(streams),
            Self::flattened_items(ys, ys.len()).concat(Streams::marker(Tag::EndArray)).is_prefix_of(
                streams,
            ),
        ensures
            n <= ys.len(),
            forall|j: int| 0 <= j < n ==> xs[j] == ys[j],
            Self::flattened_items(xs, n) == Self::flattened_items(ys, n),
            ys.len() == n ==> Streams::marker(Tag::EndArray).is_prefix_of(
                streams.after(Self::flattened_items(xs, n)),
            ),
            ys.len() > n ==> heads(ys[n as int], streams.after(Self::flattened_items(xs, n))),
        decreases xs, n + 1,
    {
        let close = Streams::marker(Tag::EndArray);
        let fy = Self::flattened_items(ys, ys.len());
        streams.lemma_prefix_split(fy, close);
        if ys.len() < n {
            let m = ys.len();
            Self::lemma_items_grow(xs, m, n);
            Self::lemma_items_grow(xs, m + 1, n);
            let gx = Self::flattened_items(xs, m);
            gx.lemma_prefix_order(Self::flattened_items(xs, n), streams);
            Self::flattened_items(xs, m + 1).lemma_prefix_order(
                Self::flattened_items(xs, n),
                streams,
            );
            Self::lemma_items_agree(xs, ys, m, streams);
            streams.lemma_prefix_split(gx, xs[m as int].flattened());
            let rest = streams.after(gx);
            rest.lemma_prefix_heads(close);
            rest.lemma_prefix_heads(xs[m as int].flattened());
            xs[m as int].lemma_opening();
            assert(false);
        }
        Self::lemma_items_grow(ys, n, ys.len());
        Self::flattened_items(ys, n).lemma_prefix_order(fy, streams);
        Self::lemma_items_agree(xs, ys, n, streams);
        if ys.len() > n {
            Self::lemma_items_grow(ys, n + 1, ys.len());
            Self::flattened_items(ys, n + 1).lemma_prefix_order(fy, streams);
            streams.lemma_prefix_split(Self::flattened_items(ys, n), ys[n as int].flattened());
        }
    }

    /// Where the walks of `n` members head a model that the members of an
    /// object and its closing tag head too, the object begins with those
    /// members, and behind them the model goes on with the closing tag or
    /// with the next member of the object.
    pub proof fn lemma_members_progress(
        xs: Seq<(Seq<char>, JsonTree)>,
        n: nat,
        ys: Seq<(Seq<char>, JsonTree)>,
        streams: Streams,
    )
        requires
            n <= xs.len(),
            Self::flattened_members(xs, n).is_prefix_of(streams),
            Self::flattened_members(ys, ys.len()).concat(
                Streams::marker(Tag::EndObject),
            ).is_prefix_of(streams),
        ensures
            n <= ys.len(),
            forall|j: int| 0 <= j < n ==> xs[j] == ys[j],
            Self::flattened_members(xs, n) == Self::flattened_members(ys, n),
            ys.len() == n ==> Streams::marker(Tag::EndObject).is_prefix_of(
                streams.after(Self::flattened_members(xs, n)),
            ),
            ys.len() > n ==> Streams::text(Tag::Key, ys[n as int].0).concat(
                ys[n as int].1.flattened(),
            ).is_prefix_of(streams.after(Self::flattened_members(xs, n))),
        decreases xs, n + 1,
    {
        let close = Streams::marker(Tag::EndObject);
        let fy = Self::flattened_members(ys, ys.len());
        streams.lemma_prefix_split(fy, close);
        if ys.len() < n {
            let m = ys.len();
            Self::lemma_members_grow(xs, m, n);
            Self::lemma_members_grow(xs, m + 1, n);
            let gx = Self::flattened_members(xs, m);
            let key = Streams::text(Tag::Key, xs[m as int].0);
            gx.lemma_prefix_order(Self::flattened_members(xs, n), streams);
            Self::flattened_members(xs, m + 1).lemma_prefix_order(
                Self::flattened_members(xs, n),
                streams,
            );
            Self::lemma_members_agree(xs, ys, m, streams);
            streams.lemma_prefix_split(gx.concat(key), xs[m as int].1.flattened());
            streams.lemma_prefix_split(gx, key);
            let rest = streams.after(gx);
            rest.lemma_prefix_heads(close);
            rest.lemma_prefix_heads(key);
            assert(false);
        }
        Self::lemma_members_grow(ys, n, ys.len());
        Self::flattened_members(ys, n).lemma_prefix_order(fy, streams);
        Self::lemma_members_agree(xs, ys, n, streams);
        if ys.len() > n {
            let gy = Self::flattened_members(ys, n);
            let key = Streams::text(Tag::Key, ys[n as int].0);
            let walk = ys[n as int].1.flattened();
            Self::lemma_members_grow(ys, n + 1, ys.len());
            Self::flattened_members(ys, n + 1).lemma_prefix_order(fy, streams);
            lemma_streams_equal(gy.concat(key).concat(walk), gy.concat(key.concat(walk)));
            streams.lemma_prefix_split(gy, key.concat(walk));
        }
    }

    /// A model with a document at its head begins with the opening tag of
    /// that document.
    pub proof fn lemma_head_opens(self, streams: Streams)
        requires
            heads(self, streams),
        ensures
            streams.tags.len() > 0,
            streams.tags[0] == opening_tag(self),
            streams.tags[0] != Tag::Key,
            streams.tags[0] != Tag::EndArray,
            streams.tags[0] != Tag::EndObject,
    {
        self.lemma_opening();
        streams.lemma_prefix_heads(self.flattened());
    }
}

/// No document is at the head of a model that is empty, that begins with a
/// `Key` or a closing tag, or whose first tag finds its pool empty.
pub proof fn lemma_scalar_stuck(streams: Streams)
    requires
        streams.tags.len() == 0 || streams.tags[0] == Tag::Key || streams.tags[0] == Tag::EndArray
            || streams.tags[0] == Tag::EndObject || (streams.tags[0] == Tag::Number
            && streams.numbers.len() == 0) || (streams.tags[0] == Tag::String
            && streams.strings.len() == 0),
    ensures
        forall|t: JsonTree| !heads(t, streams),
{
    assert forall|t: JsonTree| !heads(t, streams) by {
        if heads(t, streams) {
            t.lemma_head_opens(streams);
            streams.lemma_prefix_heads(t.flattened());
        }
    }
}

/// No document is at the head of a model that opens an array, holds the
/// walks of some items and then neither closes the array nor goes on with
/// the walk of another item.
pub proof fn lemma_array_stuck(raw: Seq<JsonTree>, streams: Streams, rest: Streams)
    requires
        Streams::marker(Tag::StartArray).concat(
            JsonTree::flattened_items(raw, raw.len()),
        ).is_prefix_of(streams),
        rest == streams.after(
            Streams::marker(Tag::StartArray).concat(JsonTree::flattened_items(raw, raw.len())),
        ),
        rest.tags.len() == 0 || (rest.tags[0] != Tag::EndArray && forall|t: JsonTree|
            !heads(t, rest)),
    ensures
        forall|t: JsonTree| !heads(t, streams),
{
    let open = Streams::marker(Tag::StartArray);
    let done = JsonTree::flattened_items(raw, raw.len());
    let close = Streams::marker(Tag::EndArray);
    streams.lemma_prefix_split(open, done);
    streams.lemma_prefix_heads(open.concat(done));
    assert forall|t: JsonTree| !heads(t, streams) by {
        if heads(t, streams) {
            t.lemma_head_opens(streams);
            let ys = t->Array_0;
            let fy = JsonTree::flattened_items(ys, ys.len());
            lemma_streams_equal(open.concat(fy).concat(close), open.concat(fy.concat(close)));
            streams.lemma_prefix_split(open, fy.concat(close));
            JsonTree::lemma_items_progress(raw, raw.len(), ys, streams.after(open));
            if ys.len() == raw.len() {
                rest.lemma_prefix_heads(close);
            } else {
                ys[raw.len() as int].lemma_head_opens(rest);
            }
        }
    }
}

/// No document is at the head of a model that opens an object, holds the
/// walks of some members and then neither closes the object nor goes on
/// with a key and the walk of a value.
pub proof fn lemma_object_stuck(raw: Seq<(Seq<char>, JsonTree)>, streams: Streams, rest: Streams)
    requires
        Streams::marker(Tag::StartObject).concat(
            JsonTree::flattened_members(raw, raw.len()),
        ).is_prefix_of(streams),
        rest == streams.after(
            Streams::marker(Tag::StartObject).concat(JsonTree::flattened_members(raw, raw.len())),
        ),
        rest.tags.len() == 0 || (rest.tags[0] != Tag::EndObject && (rest.tags[0] != Tag::Key
            || rest.strings.len() == 0 || forall|t: JsonTree|
            !heads(t, rest.after(Streams::text(Tag::Key, rest.strings[0]))))),
    ensures
        forall|t: JsonTree| !heads(t, streams),
{
    let open = Streams::marker(Tag::StartObject);
    let done = JsonTree::flattened_members(raw, raw.len());
    let close = Streams::marker(Tag::EndObject);
    streams.lemma_prefix_split(open, done);
    streams.lemma_prefix_heads(open.concat(done));
    assert forall|t: JsonTree| !heads(t, streams) by {
        if heads(t, streams) {
            t.lemma_head_opens(streams);
            let ys = t->Object_0;
            let fy = JsonTree::flattened_members(ys, ys.len());
            lemma_streams_equal(open.concat(fy).concat(close), open.concat(fy.concat(close)));
            streams.lemma_prefix_split(open, fy.concat(close));
            JsonTree::lemma_members_progress(raw, raw.len(), ys, streams.after(open));
            if ys.len() == raw.len() {
                rest.lemma_prefix_heads(close);
            } else {
                let next = ys[raw.len() as int];
                let key = Streams::text(Tag::Key, next.0);
                rest.lemma_prefix_split(key, next.1.flattened());
                rest.lemma_prefix_heads(key);
                assert(rest.after(key) == rest.after(Streams::text(Tag::Key, rest.strings[0])));
                assert(heads(next.1, rest.after(key)));
            }
        }
    }
}

/// The document at the head of a model is the only one there.
pub proof fn lemma_leading_is(tree: JsonTree, streams: Streams)
    requires
        heads(tree, streams),
    ensures
        leading(streams) == Some(tree),
{
    let chosen = choose|t: JsonTree| heads(t, streams);
    tree.lemma_unique_head(chosen, streams);
}

} // verus!
