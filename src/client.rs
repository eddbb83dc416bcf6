//! What a client can be connected to: one endpoint URL or a list of them.
use vstd::prelude::*;

verus! {

/// A value that names the endpoints of a client.
pub trait Connectable: Sized {
    /// The URLs that the value names, in order.
    spec fn spec_urls(&self) -> Seq<Seq<char>>;

    fn get_urls(self) -> (r: Vec<String>)
        ensures
            r@.map_values(|u: String| u@) == self.spec_urls(),
    ;
}

impl Connectable for String {
    open spec fn spec_urls(&self) -> Seq<Seq<char>> {
        seq![self@]
    }

    fn get_urls(self) -> (r: Vec<String>) {
        let ghost v = self@;
        let r = vec![self];
        assert(r@.map_values(|u: String| u@) =~= seq![v]);
        r
    }
}

impl Connectable for Vec<String> {
    open spec fn spec_urls(&self) -> Seq<Seq<char>> {
        self@.map_values(|u: String| u@)
    }

    fn get_urls(self) -> (r: Vec<String>) {
        self
    }
}

impl<'a> Connectable for &'a str {
    open spec fn spec_urls(&self) -> Seq<Seq<char>> {
        seq![(*self)@]
    }

    fn get_urls(self) -> (r: Vec<String>) {
        let u = self.to_owned();
        let r = vec![u];
        assert(r@.map_values(|u: String| u@) =~= seq![self@]);
        r
    }
}

impl<'a> Connectable for Vec<&'a str> {
    open spec fn spec_urls(&self) -> Seq<Seq<char>> {
        self@.map_values(|u: &str| u@)
    }

    fn get_urls(self) -> (r: Vec<String>) {
        let mut urls: Vec<String> = Vec::new();
        let mut i: usize = 0;
        while i < self.len()
            invariant
                i <= self@.len(),
                urls@.map_values(|u: String| u@) == self@.map_values(|u: &str| u@).take(i as int),
            decreases self@.len() - i,
        {
            let ghost before = urls@.map_values(|u: String| u@);
            urls.push(self[i].to_owned());
            assert(urls@.map_values(|u: String| u@) =~= before.push(self@[i as int]@));
            assert(self@.map_values(|u: &str| u@).take(i as int + 1) =~= self@.map_values(
                |u: &str| u@,
            ).take(i as int).push(self@[i as int]@));
            i = i + 1;
        }
        assert(self@.map_values(|u: &str| u@).take(self@.len() as int) =~= self@.map_values(
            |u: &str| u@,
        ));
        urls
    }
}

} // verus!
