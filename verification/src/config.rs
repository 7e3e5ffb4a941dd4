//! What is remembered between runs.
use crate::text;
use vstd::prelude::*;

verus! {

/// The largest stored state, in bytes.
pub const MAX_CONFIG: usize = 8192;

/// The selected phone, and whether its clipboard is shared.
pub struct Config {
    pub serial: String,
    pub identity: String,
    pub enabled: bool,
}

/// What a [`Config`] holds.
pub struct ConfigView {
    pub serial: Seq<char>,
    pub identity: Seq<char>,
    pub enabled: bool,
}

impl View for Config {
    type V = ConfigView;

    open spec fn view(&self) -> ConfigView {
        ConfigView { serial: self.serial@, identity: self.identity@, enabled: self.enabled }
    }
}

impl Clone for Config {
    fn clone(&self) -> (r: Self)
        ensures
            r@ == self@,
    {
        Config {
            serial: self.serial.clone(),
            identity: self.identity.clone(),
            enabled: self.enabled,
        }
    }
}

impl Default for Config {
    /// No phone is selected.
    fn default() -> (r: Self)
        ensures
            r@ == ConfigView::none(),
    {
        let r = Config { serial: String::new(), identity: String::new(), enabled: false };
        assert(r@.serial =~= Seq::empty());
        assert(r@.identity =~= Seq::empty());
        r
    }
}

impl ConfigView {
    /// No phone is selected.
    pub open spec fn none() -> ConfigView {
        ConfigView { serial: Seq::empty(), identity: Seq::empty(), enabled: false }
    }

    /// A phone is selected, so that its clipboard can be shared.
    pub open spec fn is_selected(self) -> bool {
        self.serial.len() > 0 && self.identity.len() > 0
    }

    /// The clipboard is shared only with a selected phone.
    pub open spec fn inv(self) -> bool {
        self.enabled ==> self.is_selected()
    }

    /// What is taken of a stored state.
    pub open spec fn sanitized(self) -> ConfigView {
        if text::byte_len(self.serial) > 512 || text::byte_len(self.identity) > 256 {
            ConfigView::none()
        } else {
            ConfigView { enabled: self.enabled && self.is_selected(), ..self }
        }
    }
}

impl Config {
    /// Whether a stored state of this length is read.
    pub fn fits(len: usize) -> (r: bool)
        ensures
            r == (len <= MAX_CONFIG),
    {
        len <= MAX_CONFIG
    }

    /// What is taken of the stored state, where there is one that can be read.
    pub fn load(stored: Option<Config>) -> (r: Config)
        ensures
            r@ == match stored {
                Some(c) => c@.sanitized(),
                None => ConfigView::none(),
            },
            r@.inv(),
    {
        let mut value = match stored {
            Some(c) => c,
            None => Config::default(),
        };
        if text::bytes_in(&value.serial) > 512 || text::bytes_in(&value.identity) > 256 {
            return Config::default();
        }
        value.enabled =
        value.enabled && !value.serial.as_str().is_empty() && !value.identity.as_str().is_empty();
        value
    }
}

/// A state that was stored is given back when it is loaded: `c` is any that the
/// bridge stores.
pub proof fn law_stored_state_is_given_back(c: ConfigView)
    requires
        c.inv(),
        text::byte_len(c.serial) <= 512,
        text::byte_len(c.identity) <= 256,
    ensures
        c.sanitized() == c,
{
}

/// What is loaded can be loaded again, unchanged.
pub proof fn law_loading_twice_is_loading_once(c: ConfigView)
    ensures
        c.sanitized().sanitized() == c.sanitized(),
        c.sanitized().inv(),
{
}

/// What is stored is taken as it is where its serial has at most 512 bytes and its
/// identity at most 256, but shared only where both are there; anything else counts
/// as nothing stored. At most 8192 bytes are read of it.
pub proof fn law_stored_states(c: ConfigView)
    ensures
        ({
            let s = c.sanitized();
            if vstd::utf8::encode_utf8(c.serial).len() <= 512 && vstd::utf8::encode_utf8(
                c.identity,
            ).len() <= 256 {
                &&& s.serial == c.serial
                &&& s.identity == c.identity
                &&& s.enabled <==> c.enabled && c.serial.len() > 0 && c.identity.len() > 0
            } else {
                s.serial.len() == 0 && s.identity.len() == 0 && !s.enabled
            }
        }),
        ConfigView::none().serial.len() == 0 && ConfigView::none().identity.len() == 0
            && !ConfigView::none().enabled,
        c.is_selected() <==> c.serial.len() > 0 && c.identity.len() > 0,
        MAX_CONFIG == 8192,
{
}

} // verus!
