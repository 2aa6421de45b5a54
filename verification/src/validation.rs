//! Post-build validators of a package recipe and which of them are active.

use vstd::prelude::*;

verus! {

/// A Validator validates packages after they have been built
#[derive(Clone, Copy, Debug, PartialEq, Eq, Structural, Hash, Ord, PartialOrd)]
pub enum Validator {
    MustInstallSomething,
    MustNotAlterExistingFiles,
    MustCollectAllFiles,
}

/// The validators that are enabled by default, in their order of application.
pub open spec fn spec_default_validators() -> Seq<Validator> {
    seq![
        Validator::MustInstallSomething,
        Validator::MustNotAlterExistingFiles,
        Validator::MustCollectAllFiles,
    ]
}

/// The set of validators that are enabled by default
pub fn default_validators() -> (r: Vec<Validator>)
    ensures
        r@ == spec_default_validators(),
{
    let r = vec![
        Validator::MustInstallSomething,
        Validator::MustNotAlterExistingFiles,
        Validator::MustCollectAllFiles,
    ];
    assert(r@ =~= spec_default_validators());
    r
}

/// ValidationSpec configures how builds of this package
/// should be validated. The default spec contains all
/// recommended validators
#[derive(Clone, Debug)]
pub struct ValidationSpec {
    pub disabled: Vec<Validator>,
}

impl Default for ValidationSpec {
    fn default() -> (r: Self)
        ensures
            r.disabled@ == Seq::<Validator>::empty(),
    {
        ValidationSpec { disabled: Vec::new() }
    }
}

/// The default validators that `disabled` leaves active, in default order.
pub open spec fn spec_configured(disabled: Seq<Validator>) -> Seq<Validator> {
    spec_default_validators().filter(|v: Validator| !disabled.contains(v))
}

impl ValidationSpec {
    /// True when this spec equals the default one (nothing is disabled).
    pub fn is_default(&self) -> (r: bool)
        ensures
            r == (self.disabled@.len() == 0),
    {
        self.disabled.len() == 0
    }

    /// True when `validator` is listed as disabled.
    fn is_disabled(&self, validator: Validator) -> (r: bool)
        ensures
            r == self.disabled@.contains(validator),
    {
        let mut i: usize = 0;
        while i < self.disabled.len()
            invariant
                0 <= i <= self.disabled@.len(),
                forall|j: int| 0 <= j < i ==> self.disabled@[j] != validator,
            decreases self.disabled@.len() - i,
        {
            if self.disabled[i] == validator {
                return true;
            }
            i = i + 1;
        }
        false
    }

    /// Return the set of active validators based on this spec: each default
    /// validator that is not disabled, once, in default order.
    pub fn configured_validators(&self) -> (r: Vec<Validator>)
        ensures
            r@ == spec_configured(self.disabled@),
            r@.no_duplicates(),
    {
        let defaults = default_validators();
        let mut r: Vec<Validator> = Vec::new();
        let mut i: usize = 0;
        while i < defaults.len()
            invariant
                defaults@ == spec_default_validators(),
                0 <= i <= defaults@.len(),
                r@ == spec_default_validators().take(i as int).filter(
                    |v: Validator| !self.disabled@.contains(v),
                ),
            decreases defaults@.len() - i,
        {
            let v = defaults[i];
            proof {
                reveal_with_fuel(Seq::<Validator>::filter, 1);
                assert(spec_default_validators().take(i + 1).drop_last()
                    =~= spec_default_validators().take(i as int));
            }
            if !self.is_disabled(v) {
                r.push(v);
            }
            i = i + 1;
        }
        proof {
            assert(spec_default_validators().take(3) =~= spec_default_validators());
            reveal_with_fuel(Seq::<Validator>::filter, 4);
        }
        r
    }
}

/// The name of a validator, as `Debug` shows it.
pub open spec fn validator_name(v: Validator) -> Seq<char> {
    match v {
        Validator::MustInstallSomething => "MustInstallSomething"@,
        Validator::MustNotAlterExistingFiles => "MustNotAlterExistingFiles"@,
        Validator::MustCollectAllFiles => "MustCollectAllFiles"@,
    }
}

/// The index of the first of the first `n` validators that found a
/// problem, if any.
pub open spec fn first_problem(results: Seq<Option<String>>, n: int) -> Option<int>
    decreases n,
{
    if n <= 0 {
        None
    } else {
        match first_problem(results, n - 1) {
            Some(i) => Some(i),
            None => if results[n - 1] is Some {
                Some(n - 1)
            } else {
                None
            },
        }
    }
}

proof fn lemma_first_problem_stays(results: Seq<Option<String>>, n: int, m: int)
    requires
        0 <= n < m,
        first_problem(results, n) is None,
        results[n] is Some,
    ensures
        first_problem(results, m) == Some(n),
    decreases m - n,
{
    if m > n + 1 {
        lemma_first_problem_stays(results, n, m - 1);
    }
}

/// The verdict on the changes of a build, given what each validator in use
/// found (`results[i]` for `validators[i]`): the first problem found fails
/// the build, naming its validator.
pub fn changeset_verdict(validators: &Vec<Validator>, results: &Vec<Option<String>>) -> (r: Result<(), String>)
    requires
        validators@.len() == results@.len(),
    ensures
        match first_problem(results@, results@.len() as int) {
            None => r is Ok,
            Some(i) => r matches Err(m) && m@ == validator_name(validators@[i]) + ": "@ + results@[i].unwrap()@,
        },
{
    let mut i: usize = 0;
    while i < results.len()
        invariant
            0 <= i <= results@.len(),
            validators@.len() == results@.len(),
            first_problem(results@, i as int) is None,
        decreases results@.len() - i,
    {
        match &results[i] {
            Some(e) => {
                proof {
                    lemma_first_problem_stays(results@, i as int, results@.len() as int);
                }
                let mut m = String::new();
                let name = match validators[i] {
                    Validator::MustInstallSomething => "MustInstallSomething",
                    Validator::MustNotAlterExistingFiles => "MustNotAlterExistingFiles",
                    Validator::MustCollectAllFiles => "MustCollectAllFiles",
                };
                crate::text::push_text(&mut m, name);
                crate::text::push_text(&mut m, ": ");
                crate::text::push_text(&mut m, e.as_str());
                return Err(m);
            },
            None => {},
        }
        i = i + 1;
    }
    Ok(())
}

} // verus!
