use ach::{retry, Error, MemoryState};

#[test]
fn retry_follows_transient() {
    let step = |x: u32| -> Result<u32, Error<u32>> {
        if x < 3 {
            Err(Error {
                state: MemoryState::Initializing,
                input: x + 1,
                retry: true,
            })
        } else {
            Ok(x)
        }
    };
    assert_eq!(retry(step, 0, 10).unwrap(), 3);
}

#[test]
fn retry_stops_on_permanent() {
    let step = |x: u32| -> Result<u32, Error<u32>> {
        Err(Error {
            state: MemoryState::Initialized,
            input: x,
            retry: false,
        })
    };
    let err = retry(step, 7, 10).unwrap_err();
    assert_eq!(err.input, 7);
    assert_eq!(err.state, MemoryState::Initialized);
}

#[test]
fn retry_budget_runs_out() {
    let step = |x: u32| -> Result<u32, Error<u32>> {
        Err(Error {
            state: MemoryState::Erasing,
            input: x + 1,
            retry: true,
        })
    };
    let err = retry(step, 0, 4).unwrap_err();
    assert!(!err.retry);
    assert_eq!(err.state, MemoryState::Unknown);
    assert_eq!(err.input, 4);

    let err = ach::Error::new(5u32);
    assert_eq!(err.state, MemoryState::Unknown);
    assert_eq!(err.input, 5);
    assert!(!err.retry);
}
