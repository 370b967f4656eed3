//! The resource-canonicalization extension point: plugins that may claim a
//! URL and override the signed resource string, and the registry that
//! consults them.

use vstd::prelude::*;

use crate::client::Client;
use crate::errors::OssError;
use crate::errors::PluginError;
use crate::strutil::str_eq;

verus! {

/// One extension: it names itself, decides which URLs it claims, and may
/// override the signed resource string for a claimed URL. `on_attach` runs
/// once when the plugin is registered with a client.
pub trait Plugin: Sized {
    /// Stable identity, used for conflict and error reports.
    open spec fn spec_name(&self) -> Seq<char> {
        Seq::empty()
    }

    /// Which URLs the plugin claims.
    open spec fn spec_applies(&self, url: Seq<char>) -> bool {
        false
    }

    /// What the plugin turns a claimed URL into: an override for the signed
    /// resource string, or nothing.
    open spec fn spec_canonicalize(&self, url: Seq<char>) -> Option<Seq<char>> {
        None
    }

    /// The plugin's name.
    fn name(&self) -> (r: String)
        ensures
            r@ == self.spec_name(),
    ;

    /// Whether the plugin claims `url`.
    fn applies_to(&self, url: &str) -> (r: bool)
        ensures
            r == self.spec_applies(url@),
    ;

    /// The resource override for a claimed URL, or nothing.
    fn canonicalize(&self, url: &str) -> (r: Option<String>)
        ensures
            match r {
                Some(s) => self.spec_canonicalize(url@) == Some(s@),
                None => self.spec_canonicalize(url@) is None,
            },
    ;

    /// What one completed attachment did to the plugin and the client, and
    /// with which outcome; the implementing type gives this its meaning.
    open spec fn attach_done(
        &self,
        pre: Self,
        client_pre: Client<Self>,
        client_post: Client<Self>,
        r: Result<(), OssError>,
    ) -> bool {
        true
    }

    /// Runs once when the plugin is registered with a client.
    fn on_attach(&mut self, client: &mut Client<Self>) -> (r: Result<(), OssError>)
        ensures
            final(self).attach_done(*old(self), *old(client), *final(client), r),
    ;
}

/// The plugin type of a client that carries no plugins: it names nothing,
/// claims nothing and attaches without effect.
#[derive(Clone, Copy, Debug, PartialEq, Eq, Structural)]
pub struct NoopPlugin;

impl Plugin for NoopPlugin {
    fn name(&self) -> (r: String) {
        String::new()
    }

    fn applies_to(&self, _url: &str) -> (r: bool) {
        false
    }

    fn canonicalize(&self, _url: &str) -> (r: Option<String>) {
        None
    }

    fn on_attach(&mut self, _client: &mut Client<Self>) -> (r: Result<(), OssError>) {
        Ok(())
    }
}

/// How many plugins of a run claim `url`.
pub open spec fn count_applicable<P: Plugin>(s: Seq<P>, url: Seq<char>) -> nat
    decreases s.len(),
{
    if s.len() == 0 {
        0
    } else {
        (if s[0].spec_applies(url) {
            1nat
        } else {
            0nat
        }) + count_applicable(s.drop_first(), url)
    }
}

/// Index of the first plugin of a run that claims `url`, or -1.
pub open spec fn first_applicable<P: Plugin>(s: Seq<P>, url: Seq<char>) -> int
    decreases s.len(),
{
    if s.len() == 0 {
        -1
    } else if s[0].spec_applies(url) {
        0
    } else if first_applicable(s.drop_first(), url) < 0 {
        -1
    } else {
        1 + first_applicable(s.drop_first(), url)
    }
}

/// The plugin was attached: a run of `on_attach` completed successfully on
/// it, whatever the client looked like around the call.
pub open spec fn spec_attached<P: Plugin>(post: P, pre: P) -> bool {
    exists|c1: Client<P>, c2: Client<P>| #[trigger] post.attach_done(pre, c1, c2, Ok(()))
}

/// Index of the last plugin of a run carrying `name`, or -1.
pub open spec fn find_last_name<P: Plugin>(s: Seq<P>, name: Seq<char>) -> int
    decreases s.len(),
{
    if s.len() == 0 {
        -1
    } else if s.last().spec_name() == name {
        s.len() - 1
    } else {
        find_last_name(s.drop_last(), name)
    }
}

/// The registered plugins, in registration order. Names are not forced to
/// be unique; a lookup by name takes the plugin registered last. What is
/// ruled out is two plugins claiming the same URL at request time.
#[derive(Debug)]
pub struct PluginRegistry<P: Plugin> {
    plugins: Vec<P>,
}

impl<P: Plugin> View for PluginRegistry<P> {
    type V = Seq<P>;

    closed spec fn view(&self) -> Seq<P> {
        self.plugins@
    }
}

impl<P: Plugin> Default for PluginRegistry<P> {
    fn default() -> (r: Self)
        ensures
            r@ == Seq::<P>::empty(),
    {
        Self { plugins: Vec::new() }
    }
}

impl<P: Plugin> PluginRegistry<P> {
    /// Creates an empty registry.
    pub fn new() -> (r: Self)
        ensures
            r@ == Seq::<P>::empty(),
    {
        Self { plugins: Vec::new() }
    }

    /// Registers one plugin, after every one registered before; its
    /// `on_attach` runs separately, through `initialize`.
    pub fn insert(&mut self, plugin: P)
        ensures
            final(self)@ == old(self)@.push(plugin),
    {
        self.plugins.push(plugin);
    }

    /// Registers one plugin and attaches it to the client at once: its
    /// `on_attach` runs exactly once, with a mutable handle to the client.
    /// A failing `on_attach` fails the registration with an error named
    /// after the plugin, and leaves the registry as it stood.
    pub fn register(&mut self, plugin: P, client: &mut Client<P>) -> (r: Result<(), OssError>)
        ensures
            r is Ok ==> final(self)@.len() == old(self)@.len() + 1 && final(self)@.subrange(
                0,
                old(self)@.len() as int,
            ) == old(self)@ && final(self)@.last().attach_done(
                plugin,
                *old(client),
                *final(client),
                Ok(()),
            ),
            r matches Err(e) ==> final(self)@ == old(self)@ && (e matches OssError::Plugin(p)
                && p.name@ == plugin.spec_name() && (exists|failed: P, cause: OssError|
                failed.attach_done(plugin, *old(client), *final(client), Err(cause))
                    && p.message@ == crate::errors::spec_describe(cause))),
    {
        let ghost plugin0 = plugin;
        let mut plugin = plugin;
        let name = plugin.name();
        let ghost client_pre = *client;
        let attach_result = plugin.on_attach(client);
        let ghost ar = attach_result;
        match &attach_result {
            Ok(_) => {
                let ghost attached = plugin;
                let ghost client_post = *client;
                let ghost before = self@;
                self.plugins.push(plugin);
                proof {
                    assert(ar is Ok);
                    assert(ar->Ok_0 == ());
                    assert(ar == Ok::<(), OssError>(()));
                    assert(self@.subrange(0, before.len() as int) =~= before);
                    assert(self@.last() == attached);
                    assert(attached.attach_done(plugin0, client_pre, client_post, Ok(())));
                }
                Ok(())
            },
            Err(e) => {
                let ghost failed = plugin;
                let ghost cause = *e;
                let ghost client_post = *client;
                let message = e.describe();
                proof {
                    assert(ar == Err::<(), OssError>(cause));
                    assert(failed.attach_done(plugin0, client_pre, client_post, Err(cause)));
                }
                Err(OssError::Plugin(PluginError { name, message }))
            },
        }
    }

    /// Number of registered plugins.
    pub fn len(&self) -> (r: usize)
        ensures
            r == self@.len(),
    {
        self.plugins.len()
    }

    /// Whether some registered plugin carries `name`.
    pub fn contains_name(&self, name: &str) -> (r: bool)
        ensures
            r == (find_last_name(self@, name@) >= 0),
    {
        self.get_by_name(name).is_some()
    }

    /// The plugin carrying `name` that was registered last, if any.
    pub fn get_by_name(&self, name: &str) -> (r: Option<&P>)
        ensures
            match r {
                Some(p) => {
                    let j = find_last_name(self@, name@);
                    j >= 0 && *p == self@[j]
                },
                None => find_last_name(self@, name@) < 0,
            },
    {
        let mut i: usize = self.plugins.len();
        assert(self@.subrange(0, i as int) =~= self@);
        while i > 0
            invariant
                0 <= i <= self@.len(),
                find_last_name(self@, name@) == find_last_name(
                    self@.subrange(0, i as int),
                    name@,
                ),
            decreases i,
        {
            i -= 1;
            let n = self.plugins[i].name();
            proof {
                assert(self@.subrange(0, i + 1).last() == self@[i as int]);
                assert(self@.subrange(0, i + 1).drop_last() =~= self@.subrange(0, i as int));
            }
            if str_eq(n.as_str(), name) {
                assert(find_last_name(self@, name@) == i as int);
                return Some(&self.plugins[i]);
            }
        }
        assert(self@.subrange(0, 0) =~= Seq::<P>::empty());
        None
    }

    /// Attaches every plugin to the client, in registration order: each
    /// plugin's `on_attach` runs once with a mutable handle to the client.
    /// The first failure stops the walk with an error named after the
    /// failing plugin.
    pub fn initialize(&mut self, client: &mut Client<P>) -> (r: Result<(), OssError>)
        ensures
            final(self)@.len() == old(self)@.len(),
            r is Ok ==> forall|j: int|
                0 <= j < old(self)@.len() ==> spec_attached(
                    #[trigger] final(self)@[j],
                    old(self)@[j],
                ),
            r matches Err(e) ==> (e matches OssError::Plugin(p) && (exists|
                j: int,
                c1: Client<P>,
                c2: Client<P>,
                cause: OssError,
            |
                0 <= j < old(self)@.len() && p.name@ == old(self)@[j].spec_name()
                    && #[trigger] final(self)@[j].attach_done(old(self)@[j], c1, c2, Err(cause))
                    && p.message@ == crate::errors::spec_describe(cause))),
    {
        let mut i: usize = 0;
        let n = self.plugins.len();
        while i < n
            invariant
                n == old(self)@.len(),
                0 <= i <= n,
                self.plugins@.len() == n,
                forall|j: int| i <= j < n ==> self.plugins@[j] == old(self)@[j],
                forall|j: int|
                    0 <= j < i ==> spec_attached(#[trigger] self.plugins@[j], old(self)@[j]),
            decreases n - i,
        {
            let name = self.plugins[i].name();
            let ghost client_pre = *client;
            let attach_result = self.plugins[i].on_attach(client);
            let ghost ar = attach_result;
            let ghost client_post = *client;
            match &attach_result {
                Ok(_) => {
                    proof {
                        assert(ar is Ok);
                        assert(ar->Ok_0 == ());
                        assert(ar == Ok::<(), OssError>(()));
                        assert(self.plugins@[i as int].attach_done(
                            old(self)@[i as int],
                            client_pre,
                            client_post,
                            Ok(()),
                        ));
                        assert(spec_attached(self.plugins@[i as int], old(self)@[i as int]));
                    }
                },
                Err(e) => {
                    let ghost cause = *e;
                    let message = e.describe();
                    proof {
                        assert(ar == Err::<(), OssError>(cause));
                        assert(self@[i as int].attach_done(
                            old(self)@[i as int],
                            client_pre,
                            client_post,
                            Err(cause),
                        ));
                        assert(name@ == old(self)@[i as int].spec_name());
                        assert(message@ == crate::errors::spec_describe(cause));
                    }
                    return Err(OssError::Plugin(PluginError { name, message }));
                },
            }
            i += 1;
        }
        Ok(())
    }

    /// Consults the plugins on `url`, in registration order: with no
    /// claimant the resource stays as computed; a single claimant's
    /// `canonicalize` decides (it may still decline); two or more
    /// claimants are a hard conflict.
    pub fn get_canonicalized_resource(&self, url: &str) -> (r: Result<Option<String>, OssError>)
        ensures
            count_applicable(self@, url@) == 0 ==> (r matches Ok(o) && o is None),
            count_applicable(self@, url@) == 1 ==> (r matches Ok(o) && (match o {
                Some(s) => self@[first_applicable(self@, url@)].spec_canonicalize(url@) == Some(
                    s@,
                ),
                None => self@[first_applicable(self@, url@)].spec_canonicalize(url@) is None,
            })),
            count_applicable(self@, url@) >= 2 ==> (r matches Err(e) && e matches OssError::Plugin(
                p,
            ) && p.name@ == "plugin conflict"@),
    {
        let n = self.plugins.len();
        let mut count: usize = 0;
        let mut first: usize = 0;
        let mut i: usize = 0;
        assert(self@.skip(0) =~= self@);
        while i < n
            invariant
                n == self@.len(),
                0 <= i <= n,
                count <= i,
                count_applicable(self@, url@) == count + count_applicable(
                    self@.skip(i as int),
                    url@,
                ),
                count > 0 ==> first < i && first as int == first_applicable(self@, url@)
                    && self@[first as int].spec_applies(url@),
                count == 0 ==> first_applicable(self@, url@) == (if first_applicable(
                    self@.skip(i as int),
                    url@,
                ) < 0 {
                    -1int
                } else {
                    i + first_applicable(self@.skip(i as int), url@)
                }),
            decreases n - i,
        {
            assert(self@.skip(i as int)[0] == self@[i as int]);
            proof {
                assert(self@.skip(i as int).drop_first() =~= self@.skip(i + 1));
            }
            if self.plugins[i].applies_to(url) {
                if count == 0 {
                    first = i;
                    assert(first_applicable(self@.skip(i as int), url@) == 0);
                }
                count += 1;
            }
            i += 1;
        }
        assert(self@.skip(n as int).len() == 0);
        if count == 0 {
            Ok(None)
        } else if count == 1 {
            Ok(self.plugins[first].canonicalize(url))
        } else {
            Err(
                OssError::Plugin(
                    PluginError {
                        name: "plugin conflict".to_owned(),
                        message: "several plugins claim this request".to_owned(),
                    },
                ),
            )
        }
    }
}

} // verus!
