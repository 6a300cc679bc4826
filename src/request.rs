use vstd::prelude::*;

verus! {

/// One header of an outgoing request; `name` is in lower case.
pub struct Header {
    pub name: String,
    pub value: Vec<u8>,
    /// Whether the value must be kept out of logs and traces.
    pub sensitive: bool,
}

/// An outgoing HTTP request as the endpoint layer builds it.
pub struct ApiRequest {
    pub method: String,
    pub url: String,
    pub headers: Vec<Header>,
    pub body: Vec<u8>,
}

/// A header seen as its name, its value bytes and its sensitivity mark.
pub type HeaderView = (Seq<char>, Seq<u8>, bool);

pub open spec fn header_view(h: Header) -> HeaderView {
    (h.name@, h.value@, h.sensitive)
}

pub open spec fn headers_view(hs: Seq<Header>) -> Seq<HeaderView> {
    hs.map_values(|h: Header| header_view(h))
}

/// The headers of `hs` whose name is not `name`, in their order.
pub open spec fn without_name(hs: Seq<HeaderView>, name: Seq<char>) -> Seq<HeaderView>
    decreases hs.len(),
{
    if hs.len() == 0 {
        seq![]
    } else {
        let rest = without_name(hs.drop_last(), name);
        if hs.last().0 == name {
            rest
        } else {
            rest.push(hs.last())
        }
    }
}

/// The headers after `name` is set to `value`: earlier entries of that name go,
/// the new one comes last.
pub open spec fn with_header(hs: Seq<HeaderView>, name: Seq<char>, value: Seq<u8>, sensitive: bool) -> Seq<HeaderView> {
    without_name(hs, name).push((name, value, sensitive))
}

/// The values that the headers of `hs` named `name` carry, in order.
pub open spec fn values_named(hs: Seq<HeaderView>, name: Seq<char>) -> Seq<Seq<u8>>
    decreases hs.len(),
{
    if hs.len() == 0 {
        seq![]
    } else {
        let rest = values_named(hs.drop_last(), name);
        if hs.last().0 == name {
            rest.push(hs.last().1)
        } else {
            rest
        }
    }
}

pub proof fn lemma_without_name_has_none(hs: Seq<HeaderView>, name: Seq<char>)
    ensures
        values_named(without_name(hs, name), name) =~= Seq::<Seq<u8>>::empty(),
    decreases hs.len(),
{
    if hs.len() > 0 {
        lemma_without_name_has_none(hs.drop_last(), name);
        let rest = without_name(hs.drop_last(), name);
        if hs.last().0 != name {
            assert(rest.push(hs.last()).drop_last() =~= rest);
        }
    }
}

/// Once a header is set, it is the only header of its name, with the value given.
pub proof fn lemma_with_header_single(hs: Seq<HeaderView>, name: Seq<char>, value: Seq<u8>, sensitive: bool)
    ensures
        values_named(with_header(hs, name, value, sensitive), name) =~= seq![value],
{
    lemma_without_name_has_none(hs, name);
    let w = without_name(hs, name);
    assert(w.push((name, value, sensitive)).drop_last() =~= w);
}

impl Header {
    pub fn new(name: String, value: Vec<u8>, sensitive: bool) -> (r: Header)
        ensures
            r.name@ == name@,
            r.value@ == value@,
            r.sensitive == sensitive,
    {
        Header { name, value, sensitive }
    }
}

impl ApiRequest {
    pub fn new(method: String, url: String, headers: Vec<Header>, body: Vec<u8>) -> (r: ApiRequest)
        ensures
            r.method@ == method@,
            r.url@ == url@,
            headers_view(r.headers@) == headers_view(headers@),
            r.body@ == body@,
    {
        ApiRequest { method, url, headers, body }
    }

    /// Sets the header `name` to `value`, replacing every earlier value of it.
    pub fn set_header(&mut self, name: String, value: Vec<u8>, sensitive: bool)
        ensures
            headers_view(final(self).headers@) == with_header(
                headers_view(old(self).headers@),
                name@,
                value@,
                sensitive,
            ),
            final(self).method@ == old(self).method@,
            final(self).url@ == old(self).url@,
            final(self).body@ == old(self).body@,
    {
        let ghost old_view = headers_view(self.headers@);
        let mut rest: Vec<Header> = Vec::new();
        std::mem::swap(&mut rest, &mut self.headers);
        let mut kept: Vec<Header> = Vec::new();
        let ghost mut done: int = 0;
        while rest.len() > 0
            invariant
                0 <= done <= old_view.len(),
                headers_view(rest@) == old_view.skip(done),
                headers_view(kept@) == without_name(old_view.take(done), name@),
            decreases rest.len(),
        {
            assert(headers_view(rest@).len() == rest@.len());
            assert(done < old_view.len());
            let ghost before = rest@;
            let h = rest.remove(0);
            proof {
                assert(rest@ =~= before.subrange(1, before.len() as int));
                assert forall|k: int| 0 <= k < rest@.len() implies headers_view(rest@)[k]
                    == old_view.skip(done + 1)[k] by {
                    assert(headers_view(before)[k + 1] == old_view.skip(done)[k + 1]);
                }
                assert(old_view.skip(done)[0] == header_view(h));
                assert(old_view.take(done + 1).drop_last() =~= old_view.take(done));
                assert(old_view.take(done + 1).last() == header_view(h));
                assert(headers_view(rest@) =~= old_view.skip(done + 1));
            }
            let same = h.name == name;
            if !same {
                kept.push(h);
                assert(headers_view(kept@) =~= without_name(old_view.take(done), name@).push(
                    header_view(h),
                ));
            }
            proof {
                done = done + 1;
            }
        }
        assert(old_view.take(done) =~= old_view);
        kept.push(Header { name, value, sensitive });
        assert(headers_view(kept@) =~= with_header(old_view, name@, value@, sensitive));
        self.headers = kept;
    }
}

} // verus!
