# capture

Payload of network connections as one stream of events, from two kinds of observation:

- packets of a network interface, read as TCP segments and put back into streams;
- kernel probes on system calls, which tell of connections and samples of what is written and
  read.

The library is verified with Verus: each function states in its contract what it returns and how
it changes what it is given, and the proofs are part of the source.

## Layout

- `src/libpcap`: decoding packets, following connections, putting streams back together.
- `src/ebpf`: kernel observations, the flows behind them, what the kernel is told to sample, and
  the state machine that polls and hands off.
- `src/multiplex.rs`: several providers polled as one.
- `src/selector.rs`, `src/bounded_recency.rs`, `src/output_loss.rs`, `src/keyed.rs`: selection,
  bounded maps, loss counters and keyed lists that the others use.
- `src/model.rs`, `src/event.rs`, `src/provider.rs`, `src/address.rs`: what events and providers
  are.
- `tests`: the library seen from outside.
- `app`: libpcap, aya, files and clocks around the library.

What a resolver or a source of observations replies is not known beforehand. The library talks to
them through ledgers, which record every question and its reply; a contract says which questions
are asked and what follows from the replies. Public proof functions whose names begin with `law_`
state what holds over several steps.

A few functions call outside crates. They carry `external_body` or `assume_specification`, and
their comments say what is taken for granted.
