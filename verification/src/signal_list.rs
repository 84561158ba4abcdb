//! The signals of a physical stream, one optional value per signal.
use vstd::prelude::*;
use crate::error::Error;
use crate::name::{Name, valid_name};

verus! {

/// One optional value for each signal of a physical stream: `valid`,
/// `ready`, `data`, `last`, `stai`, `endi`, `strb` and `user`.
#[derive(Debug, Clone, PartialEq, Eq, Hash)]
pub struct SignalList<T> {
    valid: Option<T>,
    ready: Option<T>,
    data: Option<T>,
    last: Option<T>,
    stai: Option<T>,
    endi: Option<T>,
    strb: Option<T>,
    user: Option<T>,
}

/// The present values of `s`, in order.
pub open spec fn present<T>(s: Seq<Option<T>>) -> Seq<T>
    decreases s.len(),
{
    if s.len() == 0 {
        Seq::empty()
    } else {
        match s.last() {
            Some(v) => present(s.drop_last()).push(v),
            None => present(s.drop_last()),
        }
    }
}

/// The canonical names of the signals, in order.
pub open spec fn signal_names() -> Seq<Seq<char>> {
    seq![
        "valid"@,
        "ready"@,
        "data"@,
        "last"@,
        "stai"@,
        "endi"@,
        "strb"@,
        "user"@,
    ]
}

impl<T> SignalList<T> {
    /// The signals in the order `valid`, `ready`, `data`, `last`, `stai`,
    /// `endi`, `strb`, `user`.
    pub closed spec fn signals(&self) -> Seq<Option<T>> {
        seq![
            self.valid,
            self.ready,
            self.data,
            self.last,
            self.stai,
            self.endi,
            self.strb,
            self.user,
        ]
    }

    /// There are eight signals.
    pub proof fn lemma_len(&self)
        ensures
            self.signals().len() == 8,
    {
    }

    /// A list without any signal.
    pub fn new() -> (r: SignalList<T>)
        ensures
            forall|i: int| 0 <= i < 8 ==> r.signals()[i] is None,
            r.signals().len() == 8,
    {
        SignalList {
            valid: None,
            ready: None,
            data: None,
            last: None,
            stai: None,
            endi: None,
            strb: None,
            user: None,
        }
    }

    /// A list with the given signals.
    pub fn try_new(
        valid: Option<T>,
        ready: Option<T>,
        data: Option<T>,
        last: Option<T>,
        stai: Option<T>,
        endi: Option<T>,
        strb: Option<T>,
        user: Option<T>,
    ) -> (r: Result<SignalList<T>, Error>)
        ensures
            r matches Ok(l) && l.signals() == seq![valid, ready, data, last, stai, endi, strb, user],
    {
        Ok(SignalList { valid, ready, data, last, stai, endi, strb, user })
    }

    pub fn with_valid(self, valid: T) -> (r: Result<SignalList<T>, Error>)
        ensures
            r matches Ok(l) && l.signals() == self.signals().update(0, Some(valid)),
    {
        let mut s = self;
        s.valid = Some(valid);
        Ok(s)
    }

    pub fn with_ready(self, ready: T) -> (r: Result<SignalList<T>, Error>)
        ensures
            r matches Ok(l) && l.signals() == self.signals().update(1, Some(ready)),
    {
        let mut s = self;
        s.ready = Some(ready);
        Ok(s)
    }

    pub fn with_data(self, data: T) -> (r: Result<SignalList<T>, Error>)
        ensures
            r matches Ok(l) && l.signals() == self.signals().update(2, Some(data)),
    {
        let mut s = self;
        s.data = Some(data);
        Ok(s)
    }

    pub fn with_last(self, last: T) -> (r: Result<SignalList<T>, Error>)
        ensures
            r matches Ok(l) && l.signals() == self.signals().update(3, Some(last)),
    {
        let mut s = self;
        s.last = Some(last);
        Ok(s)
    }

    pub fn with_stai(self, stai: T) -> (r: Result<SignalList<T>, Error>)
        ensures
            r matches Ok(l) && l.signals() == self.signals().update(4, Some(stai)),
    {
        let mut s = self;
        s.stai = Some(stai);
        Ok(s)
    }

    pub fn with_endi(self, endi: T) -> (r: Result<SignalList<T>, Error>)
        ensures
            r matches Ok(l) && l.signals() == self.signals().update(5, Some(endi)),
    {
        let mut s = self;
        s.endi = Some(endi);
        Ok(s)
    }

    pub fn with_strb(self, strb: T) -> (r: Result<SignalList<T>, Error>)
        ensures
            r matches Ok(l) && l.signals() == self.signals().update(6, Some(strb)),
    {
        let mut s = self;
        s.strb = Some(strb);
        Ok(s)
    }

    pub fn with_user(self, user: T) -> (r: Result<SignalList<T>, Error>)
        ensures
            r matches Ok(l) && l.signals() == self.signals().update(7, Some(user)),
    {
        let mut s = self;
        s.user = Some(user);
        Ok(s)
    }

    pub fn set_valid(&mut self, valid: Option<T>) -> (r: Result<(), Error>)
        ensures
            r is Ok,
            final(self).signals() == old(self).signals().update(0, valid),
    {
        self.valid = valid;
        Ok(())
    }

    pub fn set_ready(&mut self, ready: Option<T>) -> (r: Result<(), Error>)
        ensures
            r is Ok,
            final(self).signals() == old(self).signals().update(1, ready),
    {
        self.ready = ready;
        Ok(())
    }

    pub fn set_data(&mut self, data: Option<T>) -> (r: Result<(), Error>)
        ensures
            r is Ok,
            final(self).signals() == old(self).signals().update(2, data),
    {
        self.data = data;
        Ok(())
    }

    pub fn set_last(&mut self, last: Option<T>) -> (r: Result<(), Error>)
        ensures
            r is Ok,
            final(self).signals() == old(self).signals().update(3, last),
    {
        self.last = last;
        Ok(())
    }

    pub fn set_stai(&mut self, stai: Option<T>) -> (r: Result<(), Error>)
        ensures
            r is Ok,
            final(self).signals() == old(self).signals().update(4, stai),
    {
        self.stai = stai;
        Ok(())
    }

    pub fn set_endi(&mut self, endi: Option<T>) -> (r: Result<(), Error>)
        ensures
            r is Ok,
            final(self).signals() == old(self).signals().update(5, endi),
    {
        self.endi = endi;
        Ok(())
    }

    pub fn set_strb(&mut self, strb: Option<T>) -> (r: Result<(), Error>)
        ensures
            r is Ok,
            final(self).signals() == old(self).signals().update(6, strb),
    {
        self.strb = strb;
        Ok(())
    }

    pub fn set_user(&mut self, user: Option<T>) -> (r: Result<(), Error>)
        ensures
            r is Ok,
            final(self).signals() == old(self).signals().update(7, user),
    {
        self.user = user;
        Ok(())
    }

    pub fn valid(&self) -> (r: &Option<T>)
        ensures
            *r == self.signals()[0],
    {
        &self.valid
    }

    pub fn ready(&self) -> (r: &Option<T>)
        ensures
            *r == self.signals()[1],
    {
        &self.ready
    }

    pub fn data(&self) -> (r: &Option<T>)
        ensures
            *r == self.signals()[2],
    {
        &self.data
    }

    pub fn last(&self) -> (r: &Option<T>)
        ensures
            *r == self.signals()[3],
    {
        &self.last
    }

    pub fn stai(&self) -> (r: &Option<T>)
        ensures
            *r == self.signals()[4],
    {
        &self.stai
    }

    pub fn endi(&self) -> (r: &Option<T>)
        ensures
            *r == self.signals()[5],
    {
        &self.endi
    }

    pub fn strb(&self) -> (r: &Option<T>)
        ensures
            *r == self.signals()[6],
    {
        &self.strb
    }

    pub fn user(&self) -> (r: &Option<T>)
        ensures
            *r == self.signals()[7],
    {
        &self.user
    }

    /// The list with `f` applied to each present signal.
    pub fn map<R, F: Fn(T) -> R>(self, f: F) -> (r: SignalList<R>)
        requires
            forall|i: int, x: T|
                0 <= i < 8 && self.signals()[i] == Some(x) ==> call_requires(f, (x,)),
        ensures
            forall|i: int|
                0 <= i < 8 ==> match (self.signals()[i], #[trigger] r.signals()[i]) {
                    (Some(x), Some(y)) => call_ensures(f, (x,), y),
                    (None, None) => true,
                    _ => false,
                },
    {
        let ghost s = self.signals();
        assert(s[0] == self.valid && s[1] == self.ready && s[2] == self.data && s[3] == self.last);
        assert(s[4] == self.stai && s[5] == self.endi && s[6] == self.strb && s[7] == self.user);
        let valid = match self.valid {
            Some(x) => Some(f(x)),
            None => None,
        };
        let ready = match self.ready {
            Some(x) => Some(f(x)),
            None => None,
        };
        let data = match self.data {
            Some(x) => Some(f(x)),
            None => None,
        };
        let last = match self.last {
            Some(x) => Some(f(x)),
            None => None,
        };
        let stai = match self.stai {
            Some(x) => Some(f(x)),
            None => None,
        };
        let endi = match self.endi {
            Some(x) => Some(f(x)),
            None => None,
        };
        let strb = match self.strb {
            Some(x) => Some(f(x)),
            None => None,
        };
        let user = match self.user {
            Some(x) => Some(f(x)),
            None => None,
        };
        SignalList { valid, ready, data, last, stai, endi, strb, user }
    }

    /// The list with `f` applied to the canonical name and the value of each
    /// present signal.
    pub fn map_named<R, F: Fn(Name, T) -> R>(self, f: F) -> (r: SignalList<R>)
        requires
            forall|i: int, n: Name, x: T|
                0 <= i < 8 && self.signals()[i] == Some(x) && n@ == signal_names()[i]
                    ==> call_requires(f, (n, x)),
        ensures
            forall|i: int|
                0 <= i < 8 ==> match (self.signals()[i], #[trigger] r.signals()[i]) {
                    (Some(x), Some(y)) => exists|n: Name|
                        n@ == signal_names()[i] && call_ensures(f, (n, x), y),
                    (None, None) => true,
                    _ => false,
                },
    {
        let ghost s = self.signals();
        assert(s[0] == self.valid && s[1] == self.ready && s[2] == self.data && s[3] == self.last);
        assert(s[4] == self.stai && s[5] == self.endi && s[6] == self.strb && s[7] == self.user);
        let valid = match self.valid {
            Some(x) => Some(f(signal_name(0), x)),
            None => None,
        };
        let ready = match self.ready {
            Some(x) => Some(f(signal_name(1), x)),
            None => None,
        };
        let data = match self.data {
            Some(x) => Some(f(signal_name(2), x)),
            None => None,
        };
        let last = match self.last {
            Some(x) => Some(f(signal_name(3), x)),
            None => None,
        };
        let stai = match self.stai {
            Some(x) => Some(f(signal_name(4), x)),
            None => None,
        };
        let endi = match self.endi {
            Some(x) => Some(f(signal_name(5), x)),
            None => None,
        };
        let strb = match self.strb {
            Some(x) => Some(f(signal_name(6), x)),
            None => None,
        };
        let user = match self.user {
            Some(x) => Some(f(signal_name(7), x)),
            None => None,
        };
        SignalList { valid, ready, data, last, stai, endi, strb, user }
    }

    /// The list with each present signal replaced by `f` of its value.
    pub fn apply<F: Fn(T) -> T>(&mut self, f: F)
        requires
            forall|i: int, x: T|
                0 <= i < 8 && old(self).signals()[i] == Some(x) ==> call_requires(f, (x,)),
        ensures
            forall|i: int|
                0 <= i < 8 ==> match (old(self).signals()[i], #[trigger] final(self).signals()[i]) {
                    (Some(x), Some(y)) => call_ensures(f, (x,), y),
                    (None, None) => true,
                    _ => false,
                },
    {
        let valid = self.valid.take();
        let ready = self.ready.take();
        let data = self.data.take();
        let last = self.last.take();
        let stai = self.stai.take();
        let endi = self.endi.take();
        let strb = self.strb.take();
        let user = self.user.take();
        let list = SignalList { valid, ready, data, last, stai, endi, strb, user };
        assert(list.signals() == old(self).signals());
        *self = list.map(f);
    }

    /// The list with the first present signal replaced by `f` of its value.
    pub fn apply_first<F: Fn(T) -> T>(&mut self, f: F)
        requires
            forall|i: int, x: T|
                0 <= i < 8 && old(self).signals()[i] == Some(x) ==> call_requires(f, (x,)),
        ensures
            forall|i: int|
                0 <= i < 8 && (forall|j: int| 0 <= j < i ==> old(self).signals()[j] is None) && old(
                    self,
                ).signals()[i] is Some ==> (#[trigger] final(self).signals()[i] matches Some(y)
                    && call_ensures(f, (old(self).signals()[i]->0,), y)),
            forall|i: int|
                0 <= i < 8 && (exists|j: int| 0 <= j < i && old(self).signals()[j] is Some)
                    ==> #[trigger] final(self).signals()[i] == old(self).signals()[i],
            forall|i: int|
                0 <= i < 8 && old(self).signals()[i] is None ==> #[trigger] final(self).signals()[i]
                    is None,
            (forall|j: int| 0 <= j < 8 ==> #[trigger] old(self).signals()[j] is None) ==> (final(self).signals() == old(self).signals()),
    {
        let ghost s = old(self).signals();
        if self.valid.is_some() {
            let x = self.valid.take().unwrap();
            self.valid = Some(f(x));
            return;
        }
        if self.ready.is_some() {
            assert(s[0] is None);
            let x = self.ready.take().unwrap();
            self.ready = Some(f(x));
            return;
        }
        if self.data.is_some() {
            let x = self.data.take().unwrap();
            self.data = Some(f(x));
            return;
        }
        if self.last.is_some() {
            let x = self.last.take().unwrap();
            self.last = Some(f(x));
            return;
        }
        if self.stai.is_some() {
            let x = self.stai.take().unwrap();
            self.stai = Some(f(x));
            return;
        }
        if self.endi.is_some() {
            let x = self.endi.take().unwrap();
            self.endi = Some(f(x));
            return;
        }
        if self.strb.is_some() {
            let x = self.strb.take().unwrap();
            self.strb = Some(f(x));
            return;
        }
        if self.user.is_some() {
            let x = self.user.take().unwrap();
            self.user = Some(f(x));
            return;
        }
    }

    /// The present signals, in order.
    pub fn into_vec(self) -> (r: Vec<T>)
        ensures
            r@ == present(self.signals()),
    {
        let ghost s = self.signals();
        proof {
            let t = s.take(1);
            assert(t.last() == self.valid);
            assert(t.drop_last() =~= Seq::<Option<T>>::empty());
            assert(present(t.drop_last()) =~= Seq::<T>::empty());
        }
        let mut result: Vec<T> = Vec::new();
        if let Some(v) = self.valid {
            result.push(v);
        }
        assert(result@ =~= present(s.take(1)));
        if let Some(v) = self.ready {
            result.push(v);
        }
        assert(s.take(2).drop_last() == s.take(1));
        assert(result@ == present(s.take(2)));
        if let Some(v) = self.data {
            result.push(v);
        }
        assert(s.take(3).drop_last() == s.take(2));
        assert(result@ == present(s.take(3)));
        if let Some(v) = self.last {
            result.push(v);
        }
        assert(s.take(4).drop_last() == s.take(3));
        assert(result@ == present(s.take(4)));
        if let Some(v) = self.stai {
            result.push(v);
        }
        assert(s.take(5).drop_last() == s.take(4));
        assert(result@ == present(s.take(5)));
        if let Some(v) = self.endi {
            result.push(v);
        }
        assert(s.take(6).drop_last() == s.take(5));
        assert(result@ == present(s.take(6)));
        if let Some(v) = self.strb {
            result.push(v);
        }
        assert(s.take(7).drop_last() == s.take(6));
        assert(result@ == present(s.take(7)));
        if let Some(v) = self.user {
            result.push(v);
        }
        assert(s.take(8).drop_last() == s.take(7));
        assert(s.take(8) == s);
        result
    }
}

/// The canonical name of signal `i`.
fn signal_name(i: usize) -> (r: Name)
    requires
        i < 8,
    ensures
        r@ == signal_names()[i as int],
{
    let s = if i == 0 {
        "valid"
    } else if i == 1 {
        "ready"
    } else if i == 2 {
        "data"
    } else if i == 3 {
        "last"
    } else if i == 4 {
        "stai"
    } else if i == 5 {
        "endi"
    } else if i == 6 {
        "strb"
    } else {
        "user"
    };
    proof {
        reveal_strlit("valid");
        reveal_strlit("ready");
        reveal_strlit("data");
        reveal_strlit("last");
        reveal_strlit("stai");
        reveal_strlit("endi");
        reveal_strlit("strb");
        reveal_strlit("user");
        assert(valid_name(s@));
    }
    Name::try_new(s).unwrap()
}

} // verus!
