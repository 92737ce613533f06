//! The limit on the time of one transcription. One that takes longer is given up, so that nothing
//! hangs.
use crate::text::{concat3, contains, decimal, occurs_at, push_str, to_decimal};
use vstd::prelude::*;

verus! {

/// What is said of a transcription that took longer than `secs` seconds.
pub open spec fn overdue(secs: u64, label: Seq<char>) -> Seq<char> {
    "轉譯逾時 "@ + decimal(secs as nat) + "s（"@ + label
        + "）— 放棄該句避免卡死。如常態太慢,調 ~/.mori/ear.json 的 transcribe_timeout_secs"@
}

/// The result of a transcription that was given `timeout_secs` seconds: `finished` is what it came
/// to, if it ended in time.
pub fn guard<T>(finished: Option<Result<T, String>>, timeout_secs: u64, label: &str) -> (r: Result<
    T,
    String,
>)
    ensures
        match finished {
            Some(inner) => r == inner,
            None => r matches Err(m) && m@ == overdue(timeout_secs, label@),
        },
{
    match finished {
        Some(inner) => inner,
        None => {
            let mut m = concat3("轉譯逾時 ", to_decimal(timeout_secs).as_str(), "s（");
            push_str(&mut m, label);
            push_str(
                &mut m,
                "）— 放棄該句避免卡死。如常態太慢,調 ~/.mori/ear.json 的 transcribe_timeout_secs",
            );
            Err(m)
        },
    }
}

/// What ends in time is left as it is, and what does not is an error that names how long it was
/// waited for and what it was.
pub proof fn law_what_ends_in_time_is_left_as_it_is<T>(
    finished: Option<Result<T, String>>,
    timeout_secs: u64,
    label: &str,
    r: Result<T, String>,
)
    requires
        call_ensures(guard::<T>, (finished, timeout_secs, label), r),
    ensures
        finished matches Some(x) ==> r == x,
        finished is None ==> (r matches Err(m) && contains(m@, decimal(timeout_secs as nat))
            && contains(m@, label@)),
{
    if finished is None {
        let m = r->Err_0@;
        let a = "轉譯逾時 "@;
        let n = decimal(timeout_secs as nat);
        let b = "s（"@;
        let i = a.len() as int;
        assert(m.subrange(i, i + n.len()) =~= n);
        assert(occurs_at(m, n, i));
        let j = i + n.len() + b.len();
        assert(m.subrange(j, j + label@.len()) =~= label@);
        assert(occurs_at(m, label@, j));
    }
}

} // verus!
