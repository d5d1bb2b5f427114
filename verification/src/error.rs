//! What can go wrong when effects are collected and applied.

use std::fmt::{Debug, Display};
use std::sync::Arc;

use vstd::prelude::*;

verus! {

/// The error type that an effect can return: anything that can be shown and shared.
///
/// Callers hold these errors as `Arc<E>` with `E: EffectError + ?Sized`, so that
/// `Arc<dyn EffectError>` can stand for the errors of all effects.
pub trait EffectError: Debug + Display + Send + Sync + 'static {

}

impl<T> EffectError for T where T: Debug + Display + Send + Sync + 'static {

}

/// Outcome of one effect's application when it did not succeed.
#[derive(Debug)]
pub enum ApplyOutcome<E> {
    /// The side effect itself failed.
    Failed(E),
    /// The effect carried no content, because its target was already up to date when it was
    /// captured, and by the time it was applied the target no longer was.
    Retry,
}

/// Two captured effects have the same key, of length `key_len`, but different values.
#[derive(Debug, Clone, Copy)]
pub struct ConflictingEffectError {
    pub key_len: usize,
}

/// Error returned when a batch of effects is applied. Callers should retry on `Retry`; everything
/// else is terminal.
#[derive(Debug)]
pub enum EffectsError<E: EffectError + ?Sized> {
    /// A side effect failed during apply. Holds the first error encountered.
    Apply(Arc<E>),
    /// Two effects emitted the same key with different value hashes; no apply happened. Holds the
    /// length of the key in bytes.
    Conflict(usize),
    /// At least one effect was captured without content and no longer matches the shared per-key
    /// state. The producing operation has to be invalidated; the caller should read it again and
    /// apply the fresh effects.
    Retry,
}

impl<E: EffectError + ?Sized> Clone for EffectsError<E> {
    fn clone(&self) -> (res: Self)
        ensures
            res == *self,
    {
        match self {
            EffectsError::Apply(err) => EffectsError::Apply(err.clone()),
            EffectsError::Conflict(key_len) => EffectsError::Conflict(*key_len),
            EffectsError::Retry => EffectsError::Retry,
        }
    }
}

impl<E: EffectError + ?Sized> From<Arc<E>> for EffectsError<E> {
    fn from(err: Arc<E>) -> (res: Self) {
        EffectsError::Apply(err)
    }
}

impl<E: EffectError + ?Sized> vstd::std_specs::convert::FromSpecImpl<Arc<E>> for EffectsError<E> {
    open spec fn obeys_from_spec() -> bool {
        true
    }

    open spec fn from_spec(err: Arc<E>) -> Self {
        EffectsError::Apply(err)
    }
}

impl ConflictingEffectError {
    /// The message to show for this error.
    pub fn message(&self) -> (message: String)
        ensures
            message@ == "Conflicting effects for the same key (key length: "@ + decimal(
                self.key_len as nat,
            ) + " bytes)"@,
    {
        let message = "Conflicting effects for the same key (key length: ".to_string();
        message.concat(to_decimal(self.key_len).as_str()).concat(" bytes)")
    }
}

impl<E: EffectError + ?Sized> EffectsError<E> {
    /// The message to show for this error. For a failed side effect it is that of the failure.
    pub fn message(&self) -> (message: String)
        ensures
            match self {
                EffectsError::Apply(err) => vstd::string::to_string_from_display_ensures::<E>(
                    &**err,
                    message,
                ),
                EffectsError::Conflict(key_len) => message@
                    == "conflicting effects for the same key (key length: "@ + decimal(
                    *key_len as nat,
                ) + " bytes)"@,
                EffectsError::Retry => message@
                    == "effect state was reset; producing operation has been invalidated, retry required"@,
            },
    {
        match self {
            EffectsError::Apply(err) => (**err).to_string(),
            EffectsError::Conflict(key_len) => {
                let message = "conflicting effects for the same key (key length: ".to_string();
                message.concat(to_decimal(*key_len).as_str()).concat(" bytes)")
            },
            EffectsError::Retry => {
                "effect state was reset; producing operation has been invalidated, retry required".to_string()
            },
        }
    }
}

/// The decimal digits of `n`, most significant first, without leading zeros.
pub open spec fn decimal(n: nat) -> Seq<char>
    decreases n,
{
    if n < 10 {
        seq![digit(n)]
    } else {
        decimal(n / 10).push(digit(n % 10))
    }
}

/// The digit for a number below ten.
pub open spec fn digit(n: nat) -> char {
    ('0' as nat + n) as char
}

fn to_decimal(n: usize) -> (digits: String)
    ensures
        digits@ == decimal(n as nat),
    decreases n,
{
    let last = digit_str(n % 10);
    if n < 10 {
        last.to_string()
    } else {
        to_decimal(n / 10).concat(last)
    }
}

fn digit_str(n: usize) -> (digit_str: &'static str)
    requires
        n < 10,
    ensures
        digit_str@ == seq![digit(n as nat)],
{
    proof {
        reveal_strlit("0");
        reveal_strlit("1");
        reveal_strlit("2");
        reveal_strlit("3");
        reveal_strlit("4");
        reveal_strlit("5");
        reveal_strlit("6");
        reveal_strlit("7");
        reveal_strlit("8");
        reveal_strlit("9");
    }
    match n {
        0 => "0",
        1 => "1",
        2 => "2",
        3 => "3",
        4 => "4",
        5 => "5",
        6 => "6",
        7 => "7",
        8 => "8",
        _ => "9",
    }
}

/// A number is written with the characters for its decimal digits: its last digit last, and before
/// that what is left of it, without leading zeros.
pub proof fn law_decimal_writes_every_digit(n: nat)
    ensures
        decimal(n).len() > 0,
        forall|i: int| 0 <= i < decimal(n).len() ==> '0' <= #[trigger] decimal(n)[i] <= '9',
        decimal(n).last() as int == '0' as int + n % 10,
        n < 10 ==> decimal(n).len() == 1,
        n >= 10 ==> decimal(n).drop_last() == decimal(n / 10) && decimal(n)[0] != '0',
    decreases n,
{
    if n >= 10 {
        law_decimal_writes_every_digit(n / 10);
        assert(decimal(n).drop_last() =~= decimal(n / 10));
        assert(decimal(n)[0] == decimal(n / 10)[0]);
        if n / 10 < 10 {
            assert(decimal(n / 10)[0] == decimal(n / 10).last());
        }
        assert forall|i: int| 0 <= i < decimal(n).len() implies '0' <= #[trigger] decimal(n)[i]
            <= '9' by {
            if i < decimal(n / 10).len() {
                assert(decimal(n)[i] == decimal(n / 10)[i]);
            }
        }
    }
}

/// Different numbers are written differently.
pub proof fn law_decimal_tells_numbers_apart(one: nat, other: nat)
    requires
        decimal(one) == decimal(other),
    ensures
        one == other,
    decreases one,
{
    law_decimal_writes_every_digit(one);
    law_decimal_writes_every_digit(other);
    if one >= 10 && other >= 10 {
        law_decimal_tells_numbers_apart(one / 10, other / 10);
    } else if one >= 10 {
        law_decimal_writes_every_digit(one / 10);
    } else if other >= 10 {
        law_decimal_writes_every_digit(other / 10);
    }
}

/// The messages for two conflicts are the same if and only if the keys have the same length, and
/// the message of the error that a batch returns differs from that of the conflict in nothing but
/// the case of its first letter.
pub proof fn law_conflict_messages<E: EffectError + ?Sized>(
    one: &ConflictingEffectError,
    other: &ConflictingEffectError,
    batch_error: &EffectsError<E>,
    one_message: String,
    other_message: String,
    batch_message: String,
)
    requires
        call_ensures(ConflictingEffectError::message, (one,), one_message),
        call_ensures(ConflictingEffectError::message, (other,), other_message),
        call_ensures(EffectsError::<E>::message, (batch_error,), batch_message),
        *batch_error == EffectsError::<E>::Conflict(one.key_len),
    ensures
        one_message@ == other_message@ <==> one.key_len == other.key_len,
        one_message@ == "Conflicting effects for the same key (key length: "@ + decimal(
            one.key_len as nat,
        ) + " bytes)"@,
        one_message@[0] == 'C' && batch_message@[0] == 'c',
        one_message@.skip(1) == batch_message@.skip(1),
        call_requires(ConflictingEffectError::message, (one,)),
        call_requires(EffectsError::<E>::message, (batch_error,)),
{
    reveal_strlit("Conflicting effects for the same key (key length: ");
    reveal_strlit("conflicting effects for the same key (key length: ");
    reveal_strlit(" bytes)");
    let start = "Conflicting effects for the same key (key length: "@;
    let end = " bytes)"@;
    let one_digits = decimal(one.key_len as nat);
    let other_digits = decimal(other.key_len as nat);
    assert(start.skip(1) =~= "conflicting effects for the same key (key length: "@.skip(1));
    assert(one_message@.skip(1) =~= start.skip(1) + one_digits + end);
    assert(batch_message@.skip(1) =~= start.skip(1) + one_digits + end);
    if one_message@ == other_message@ {
        assert(one_digits =~= one_message@.subrange(
            start.len() as int,
            one_message@.len() - end.len(),
        ));
        assert(other_digits =~= other_message@.subrange(
            start.len() as int,
            other_message@.len() - end.len(),
        ));
        law_decimal_tells_numbers_apart(one.key_len as nat, other.key_len as nat);
    }
}

/// A retry and a failure have messages of their own: a failure shows what its error shows.
pub proof fn law_messages_of_other_errors<E: EffectError + ?Sized>(
    err: Arc<E>,
    failure: &EffectsError<E>,
    failure_message: String,
    retry: &EffectsError<E>,
    retry_message: String,
)
    requires
        *failure == EffectsError::<E>::Apply(err),
        call_ensures(EffectsError::<E>::message, (failure,), failure_message),
        *retry == EffectsError::<E>::Retry,
        call_ensures(EffectsError::<E>::message, (retry,), retry_message),
    ensures
        vstd::string::to_string_from_display_ensures::<E>(&*err, failure_message),
        retry_message@
            == "effect state was reset; producing operation has been invalidated, retry required"@,
{
}

/// A copy of an error is that error, and the error made of a failed side effect holds its failure.
pub proof fn law_errors_are_kept<E: EffectError + ?Sized>(
    error: &EffectsError<E>,
    copy: EffectsError<E>,
    err: Arc<E>,
    made: EffectsError<E>,
)
    requires
        call_ensures(<EffectsError<E> as Clone>::clone, (error,), copy),
        call_ensures(<EffectsError<E> as From<Arc<E>>>::from, (err,), made),
    ensures
        copy == *error,
        made == EffectsError::<E>::Apply(err),
{
}

} // verus!
