# pnn_core

Bayesian k-nearest-neighbour classification (posterior over k and beta, after Holmes &
Adams, 2002), with its integer core verified by Verus.

The library in `src/` never computes with doubles. It sees a feature value as the 64-bit
pattern of an IEEE-754 double and a squared distance as the bit pattern of a
non-negative double, whose unsigned order is the order of the distances. On that basis it
verifies:

- `neighbors`, `knn`, `bench`: nearest-neighbour ranking (distance, then lower index) and
  the validated k-nearest search;
- `types`, `pipeline`: model construction and its error order, the implied class count,
  the clamping of candidate ks;
- `precompute`, `predict`: the count tensor the sampler reads, test-point neighbour lists,
  class counts and the most probable class;
- `inference`: the samplers' bookkeeping (burn-in, thinning, acceptance counts) and
  their integer random choices;
- `diagnostics`: the counts and traces of the MCMC diagnostics;
- `cli`, `bindings`, `text`, `double`: the command line, the CSV row contract and the
  Python keyword arguments, read exactly as the program reads them.

`app/` holds the `pnn-cli` program and the Python functions: file and CSV input, JSON
output, and the floating-point arithmetic (distances, log densities, softmax, the
Metropolis-Hastings steps, autocorrelation and effective sample size).
